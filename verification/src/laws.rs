//! Properties of the workspace as a whole, over the models its operations
//! are specified with.

use vstd::prelude::*;
use crate::drift::scope_diff_spec;
use crate::error::ReplayError;
use crate::model::{report_with_verdict, FreshnessReportView, TransactionState};
use crate::projection::{preview_holds, TransactionPreview, WorkspaceStatus};
use crate::state::{projection_of, ProjectionView};
use crate::status::{lists, status_holds};
use crate::store::{find_first, lemma_to_map_dom, lemma_to_map_index, vseq, KeyOf};
use crate::sort::{antisymmetric_on, lemma_sort_by_permutation, total_order};
use crate::model::EntityRef;
use crate::summary::{
    binding_candidates, candidates_spec, governs_listed, item_candidates, listed_spec, news_listed,
    selects, Candidate, Marker, WakeBindingView,
    id_order, item_order, normalized_spec, WakeItemView,
    blen, char_width, clip_spec, ellipsis, fit_count, headline_spec, render_spec,
    trim_end, last_space, WakeInputView, WAKE_BUDGET_BYTES,
};
use crate::workspace::{
    acceptance_decision, all_standing, reconciled, reconciled_all, standing, verdict_same, Reconciliation, Verdict,
    Workspace,
};
use crate::model::Transaction;
use crate::model::MutationView;
use crate::digest::hex_digest_spec;
use crate::mutation::{revert_refusal_from, RevertReadView};
use crate::model::{ClaimInputView, FreshnessWithinScope};
use crate::reconcile::{assess_spec, location_verdict_spec, LocationReadView};

use crate::event::EventRecord;
use crate::model::{candidate_material, opt_objective, sort_by_path, insert_by_path, CheckpointMarkerView, Claim, Observation};
use crate::projection::{claim_ids, delta_brief_holds, BriefDeltaStatus, DeltaStatus};
use crate::delta::delta_holds;
use crate::state::{empty_projection, spec_replay};
use crate::workspace::{chosen_checkpoint, same_but_sequence};
use crate::sort::{insert_by, sort_by, lemma_sort_by_multiset};
use crate::text::{lemma_bytes_less_total, lemma_path_le_trans, path_less_spec, utf8};
use crate::summary::{compose_spec, body_lines, lines_text, render_fold, enforce_budget_spec, is_quiet_spec};
use crate::locate::join_path;
use crate::digest::{hex_encode, lemma_hex_encode_chars};
use crate::store::{keys_increasing, to_map};

use crate::model::{ClaimView, EvidenceOutcome, EvidenceView, TransactionView};
use crate::projection::{candidate_of, first_blocker, has_bound_passing_evidence, readiness_spec, select_where};
use crate::attention::{
    bounded_locations, location_keys, newest_current, permuted, working_set_view_holds, SemanticLocationView,
    WorkingSetView, WORKING_SET_LOCATION_LIMIT,
};
use crate::sort::{ranked_before, stable_order};
use crate::summary::{activity, join, since_section, WakeCheckpointView};

verus! {

/// The state of a well-formed workspace is the replay of its log: reopening
/// the log restores exactly what was recorded.
pub proof fn replay_restores_projection(w: &Workspace)
    requires
        w.wf(),
    ensures
        projection_of(w.records()) == Ok::<ProjectionView, ReplayError>(w.projection()),
{
    w.lemma_wf();
}

/// Two workspaces with the same log hold the same state, whatever else they
/// went through.
pub proof fn same_log_same_state(a: &Workspace, b: &Workspace)
    requires
        a.wf(),
        b.wf(),
        a.records() == b.records(),
    ensures
        a.projection() == b.projection(),
{
    a.lemma_same_records(b);
}

/// A reconciliation records its verdict, so reconciling again to the same
/// verdict finds it already held and appends nothing.
pub proof fn reconciling_twice_records_once(report: FreshnessReportView, v: Verdict)
    ensures
        verdict_same(
            report_with_verdict(report, v.freshness, v.reason@, v.reconciliation_fingerprint@),
            v,
        ),
{
}

proof fn lemma_find_first_at<T: KeyOf>(s: Seq<T::V>, k: u64, i: int)
    requires
        0 <= i < s.len(),
        T::key_of(s[i]) == k,
        forall|j: int| 0 <= j < i ==> T::key_of(#[trigger] s[j]) != k,
    ensures
        find_first::<T>(s, k) == Some(s[i]),
    decreases i,
{
    if i > 0 {
        let t = s.drop_first();
        assert(T::key_of(s[0]) != k);
        assert forall|j: int| 0 <= j < i - 1 implies T::key_of(#[trigger] t[j]) != k by {
            assert(t[j] == s[j + 1]);
        }
        lemma_find_first_at::<T>(t, k, i - 1);
        assert(t[i - 1] == s[i]);
    }
}

proof fn lemma_find_listed<T: KeyOf>(s: Seq<T::V>, m: Map<u64, T::V>, k: u64)
    requires
        lists::<T>(s, m),
        m.contains_key(k),
    ensures
        find_first::<T>(s, k) == Some(m[k]),
{
    lemma_to_map_dom::<T>(s, k);
    let i = choose|i: int| 0 <= i < s.len() && T::key_of(#[trigger] s[i]) == k;
    lemma_to_map_index::<T>(s, i);
    assert forall|j: int| 0 <= j < i implies T::key_of(#[trigger] s[j]) != k by {
        assert(T::key_of(s[j]) < T::key_of(s[i]));
    }
    lemma_find_first_at::<T>(s, k, i);
}

/// The preview of an open transaction reports the readiness and reason its
/// acceptance decides from the same status, given the same drift of its
/// owned bytes: what review shows is what acceptance does.
pub proof fn preview_matches_acceptance(
    p: ProjectionView,
    st: &WorkspaceStatus,
    transaction_id: u64,
    drift: Option<Seq<char>>,
    preview: &Option<TransactionPreview>,
)
    requires
        status_holds(p, st),
        p.transactions.contains_key(transaction_id),
        p.transactions[transaction_id].state == TransactionState::Open,
        preview_holds(st, transaction_id, drift, preview),
    ensures
        preview matches Some(pv) && (pv.ready_to_accept, pv.readiness_reason@) == acceptance_decision(
            st,
            p.transactions[transaction_id],
            drift,
        ),
{
    lemma_find_listed::<Transaction>(vseq(st.transactions@), p.transactions, transaction_id);
}

/// Scoping a diff to no span keeps the whole diff.
pub proof fn whole_file_scope_keeps_the_diff(diff: Seq<char>)
    ensures
        scope_diff_spec(diff, None) == diff,
{
}

proof fn lemma_fit_count_le(s: Seq<char>, limit: nat)
    ensures
        fit_count(s, limit) <= s.len(),
        blen(s.take(fit_count(s, limit) as int)) <= limit,
    decreases s.len(),
{
    if blen(s) <= limit {
        assert(s.take(s.len() as int) =~= s);
    } else if s.len() == 0 {
        assert(s.take(0) =~= Seq::<char>::empty());
    } else {
        let d = s.drop_last();
        lemma_fit_count_le(d, limit);
        assert(s.take(fit_count(d, limit) as int) =~= d.take(fit_count(d, limit) as int));
    }
}

proof fn lemma_blen_push(s: Seq<char>, c: char)
    ensures
        blen(s.push(c)) == blen(s) + char_width(c),
{
    assert(s.push(c).drop_last() =~= s);
}

proof fn lemma_blen_take_le(s: Seq<char>, n: int)
    requires
        0 <= n <= s.len(),
    ensures
        blen(s.take(n)) <= blen(s),
    decreases s.len() - n,
{
    if n < s.len() {
        lemma_blen_take_le(s, n + 1);
        assert(s.take(n + 1).drop_last() =~= s.take(n));
    } else {
        assert(s.take(n) =~= s);
    }
}

proof fn lemma_trim_end_le(s: Seq<char>)
    ensures
        blen(trim_end(s)) <= blen(s),
    decreases s.len(),
{
    if s.len() > 0 && crate::text::is_whitespace(s.last()) {
        lemma_trim_end_le(s.drop_last());
    }
}

proof fn lemma_last_space_bound(s: Seq<char>)
    ensures
        last_space(s) matches Some(i) ==> i < s.len(),
    decreases s.len(),
{
    if s.len() > 0 {
        lemma_last_space_bound(s.drop_last());
    }
}

/// A clipped text fits its cap, for any cap that can hold the ellipsis: an
/// uncut text as it is, a cut one with its mark.
pub proof fn clip_fits_its_cap(text: Seq<char>, cap: nat)
    requires
        cap >= 3,
    ensures
        blen(clip_spec(text, cap).0) <= cap,
{
    let t = crate::summary::one_line_spec(text);
    if blen(t) > cap {
        let end: nat = (cap - 3) as nat;
        lemma_fit_count_le(t, end);
        let head = t.take(fit_count(t, end) as int);
        let head2 = match last_space(head) {
            Some(space) => head.take(space as int),
            None => head,
        };
        lemma_last_space_bound(head);
        match last_space(head) {
            Some(space) => lemma_blen_take_le(head, space as int),
            None => {},
        }
        lemma_trim_end_le(head2);
        lemma_blen_push(trim_end(head2), ellipsis());
    }
}

/// A headline fits its cap, for any cap that can hold the ellipsis.
pub proof fn headline_fits_its_cap(text: Seq<char>, cap: nat)
    requires
        cap >= 3,
    ensures
        blen(headline_spec(text, cap).0) <= cap,
{
    let t = crate::summary::one_line_spec(text);
    match crate::summary::sentence_end_from(t, 0) {
        Some(end) => clip_fits_its_cap(t.take(end + 1 as int).push(' ').push(ellipsis()), cap),
        None => clip_fits_its_cap(t, cap),
    }
}

/// The wake never exceeds its byte budget, whatever it is given.
pub proof fn wake_fits_the_budget(input: WakeInputView)
    ensures
        blen(render_spec(input)) <= WAKE_BUDGET_BYTES,
{
    let n = crate::summary::normalized_spec(input);
    if !crate::summary::is_quiet_spec(n) {
        let t = crate::summary::render_fold(n, crate::summary::candidates_spec(n)).1;
        if blen(t) > WAKE_BUDGET_BYTES {
            let limit: nat = (WAKE_BUDGET_BYTES - 4) as nat;
            lemma_fit_count_le(t, limit);
            let head = t.take(fit_count(t, limit) as int);
            lemma_blen_push(head, ellipsis());
            lemma_blen_push(head.push(ellipsis()), '\n');
        }
    }
}


proof fn lemma_item_order_total()
    ensures
        total_order(item_order()),
{
    assert forall|a: WakeItemView, b: WakeItemView| #[trigger] (item_order())(a, b) || (item_order())(b, a) by {}
    assert forall|a: WakeItemView, b: WakeItemView, c: WakeItemView|
        #[trigger] (item_order())(a, b) && #[trigger] (item_order())(b, c) implies (item_order())(a, c) by {}
}

proof fn lemma_id_order_total(s: Seq<u64>)
    ensures
        total_order(id_order()),
        antisymmetric_on(s, id_order()),
{
    assert forall|a: u64, b: u64| #[trigger] (id_order())(a, b) || (id_order())(b, a) by {}
    assert forall|a: u64, b: u64, c: u64|
        #[trigger] (id_order())(a, b) && #[trigger] (id_order())(b, c) implies (id_order())(a, c) by {}
}

/// Rendering does not depend on how the caller assembled the input: two
/// inputs that list the same open work, news and stale claims, in any order,
/// render alike, provided no two different items share a marker, a kind and
/// an id.
pub proof fn rendering_ignores_input_order(a: WakeInputView, b: WakeInputView)
    requires
        a.goal == b.goal,
        a.active_claims == b.active_claims,
        a.governs == b.governs,
        a.open.to_multiset() == b.open.to_multiset(),
        antisymmetric_on(a.open, item_order()),
        a.stale_claim_ids.to_multiset() == b.stale_claim_ids.to_multiset(),
        match (a.checkpoint, b.checkpoint) {
            (None, None) => true,
            (Some(x), Some(y)) => x.label == y.label && x.note == y.note && x.reads_captured
                == y.reads_captured && x.goal_changed == y.goal_changed && x.news.to_multiset()
                == y.news.to_multiset() && antisymmetric_on(x.news, item_order()),
            _ => false,
        },
    ensures
        render_spec(a) == render_spec(b),
{
    lemma_item_order_total();
    lemma_id_order_total(a.stale_claim_ids);
    lemma_sort_by_permutation(a.open, b.open, item_order());
    lemma_sort_by_permutation(a.stale_claim_ids, b.stale_claim_ids, id_order());
    match (a.checkpoint, b.checkpoint) {
        (Some(x), Some(y)) => {
            lemma_sort_by_permutation(x.news, y.news, item_order());
        },
        _ => {},
    }
    assert(normalized_spec(a) == normalized_spec(b));
}


proof fn lemma_item_candidate_source(items: Seq<WakeItemView>, mode: u8, e: EntityRef)
    requires
        item_candidates(items, mode).contains(Candidate::Item(e)),
    ensures
        exists|k: int| 0 <= k < items.len() && #[trigger] items[k].entity == e && selects(mode, items[k].marker),
    decreases items.len(),
{
    let rest = item_candidates(items.drop_last(), mode);
    let m = choose|m: int| 0 <= m < item_candidates(items, mode).len() && item_candidates(items, mode)[m]
        == Candidate::Item(e);
    if m < rest.len() && rest.len() < item_candidates(items, mode).len() || item_candidates(items, mode) == rest {
        assert(rest[m] == Candidate::Item(e));
        lemma_item_candidate_source(items.drop_last(), mode, e);
        let k = choose|k: int| 0 <= k < items.drop_last().len() && #[trigger] items.drop_last()[k].entity == e
            && selects(mode, items.drop_last()[k].marker);
        assert(items[k] == items.drop_last()[k]);
    } else {
        assert(items[items.len() - 1].entity == e);
    }
}

proof fn lemma_binding_candidates_knowledge(bs: Seq<WakeBindingView>, attention: bool, c: Candidate)
    requires
        binding_candidates(bs, attention).contains(c),
    ensures
        c matches Candidate::Item(EntityRef::Knowledge(_)),
    decreases bs.len(),
{
    let rest = binding_candidates(bs.drop_last(), attention);
    let m = choose|m: int| 0 <= m < binding_candidates(bs, attention).len() && binding_candidates(bs, attention)[m] == c;
    if m < rest.len() {
        assert(rest[m] == c);
        lemma_binding_candidates_knowledge(bs.drop_last(), attention, c);
    }
}

/// Ended news is never upgraded to its full text: what is no longer
/// believed appears by id only. Every workspace entity among the upgrade
/// candidates that is not listed as open work is listed as news that has not
/// ended.
pub proof fn ended_news_is_never_upgraded(input: WakeInputView, e: EntityRef)
    requires
        candidates_spec(input).contains(Candidate::Item(e)),
        !(e is Knowledge),
        forall|k: int| 0 <= k < listed_spec(input.open).len() ==> (#[trigger] listed_spec(input.open)[k]).entity != e,
    ensures
        exists|k: int| 0 <= k < news_listed(input).len() && (#[trigger] news_listed(input)[k]).entity == e
            && news_listed(input)[k].marker != Marker::Ended,
{
    let g = governs_listed(input.governs);
    let news = news_listed(input);
    let note: Seq<Candidate> = match input.checkpoint {
        Some(c) => if c.note is Some {
            seq![Candidate::Note]
        } else {
            Seq::empty()
        },
        None => Seq::empty(),
    };
    let all = candidates_spec(input);
    let c = Candidate::Item(e);
    let p0 = binding_candidates(g, true);
    let p1 = item_candidates(news, 0);
    let p3 = binding_candidates(g, false);
    let p4 = item_candidates(listed_spec(input.open), 1);
    let p5 = item_candidates(news, 2);
    assert(all == p0 + p1 + note + p3 + p4 + p5);
    let m = choose|m: int| 0 <= m < all.len() && all[m] == c;
    let (l0, l1, l2, l3, l4) = (p0.len() as int, p1.len() as int, note.len() as int, p3.len() as int, p4.len() as int);
    if m < l0 {
        assert(p0[m] == c);
        lemma_binding_candidates_knowledge(g, true, c);
    } else if m < l0 + l1 {
        assert(p1[m - l0] == c);
        lemma_item_candidate_source(news, 0, e);
    } else if m < l0 + l1 + l2 {
        assert(note[m - l0 - l1] == c);
    } else if m < l0 + l1 + l2 + l3 {
        assert(p3[m - l0 - l1 - l2] == c);
        lemma_binding_candidates_knowledge(g, false, c);
    } else if m < l0 + l1 + l2 + l3 + l4 {
        assert(p4[m - l0 - l1 - l2 - l3] == c);
        lemma_item_candidate_source(listed_spec(input.open), 1, e);
    } else {
        assert(p5[m - l0 - l1 - l2 - l3 - l4] == c);
        lemma_item_candidate_source(news, 2, e);
    }
}

/// The bytes of every mutation from `i` on match what it recorded.
pub open spec fn reads_match_from(ms: Seq<MutationView>, reads: Seq<RevertReadView>, i: int) -> bool {
    forall|j: int| i <= j < ms.len() ==> {
        &&& hex_digest_spec(#[trigger] reads[j].owned) == ms[j].after_fingerprint
        &&& hex_digest_spec(reads[j].original) == ms[j].before_fingerprint
    }
}

proof fn lemma_revert_cleared_from(ms: Seq<MutationView>, reads: Seq<RevertReadView>, i: nat)
    requires
        ms.len() == reads.len(),
        i <= ms.len(),
    ensures
        revert_refusal_from(ms, reads, i) is None <==> reads_match_from(ms, reads, i as int),
    decreases ms.len() - i,
{
    if i < ms.len() {
        lemma_revert_cleared_from(ms, reads, i + 1);
        if reads_match_from(ms, reads, i as int) {
            assert(hex_digest_spec(reads[i as int].owned) == ms[i as int].after_fingerprint);
        }
    }
}

/// A revert is cleared exactly when every path the transaction owns still
/// holds the bytes its mutation wrote, and the base bytes it restores are
/// the ones that mutation replaced: a revert never overwrites work the
/// transaction did not do, and always puts back what was there before.
pub proof fn revert_cleared_exactly_when_bytes_match(ms: Seq<MutationView>, reads: Seq<RevertReadView>)
    requires
        ms.len() == reads.len(),
    ensures
        revert_refusal_from(ms, reads, 0) is None <==> reads_match_from(ms, reads, 0),
{
    lemma_revert_cleared_from(ms, reads, 0);
}

/// Reverting a mutation right after it was applied is cleared: the worktree
/// holds what was written and the base what was replaced.
pub proof fn revert_clears_an_untouched_apply(path: Seq<char>, before: Seq<u8>, written: Seq<u8>)
    ensures
        revert_refusal_from(
            seq![MutationView {
                path,
                before_fingerprint: hex_digest_spec(before),
                after_fingerprint: hex_digest_spec(written),
            }],
            seq![RevertReadView { owned: written, original: before }],
            0,
        ) is None,
{
    let ms = seq![MutationView {
        path,
        before_fingerprint: hex_digest_spec(before),
        after_fingerprint: hex_digest_spec(written),
    }];
    let reads = seq![RevertReadView { owned: written, original: before }];
    lemma_revert_cleared_from(ms, reads, 0);
}

/// An input re-reads exactly as it was recorded.
pub open spec fn input_unchanged(input: ClaimInputView, read: LocationReadView) -> bool {
    read matches LocationReadView::Read { unit, .. } && unit == input.recorded_input_fingerprint
}

/// An input is known to have moved on: it reads differently, or is gone.
pub open spec fn input_lost(input: ClaimInputView, read: LocationReadView) -> bool {
    match read {
        LocationReadView::Read { unit, .. } => unit != input.recorded_input_fingerprint,
        LocationReadView::Missing => true,
        LocationReadView::Unverifiable => false,
    }
}

/// A claim is current exactly when every input re-reads as recorded, and
/// stale exactly when some input changed or disappeared, whatever else could
/// not be verified: staleness outranks doubt, and an unverifiable input
/// alone leaves the claim unknown.
pub proof fn claim_verdict_follows_its_inputs(inputs: Seq<ClaimInputView>, reads: Seq<LocationReadView>)
    requires
        inputs.len() <= reads.len(),
    ensures
        assess_spec(inputs, reads).0 == FreshnessWithinScope::Current <==> forall|i: int|
            0 <= i < inputs.len() ==> #[trigger] input_unchanged(inputs[i], reads[i]),
        assess_spec(inputs, reads).0 == FreshnessWithinScope::Stale <==> exists|i: int|
            0 <= i < inputs.len() && #[trigger] input_lost(inputs[i], reads[i]),
        assess_spec(inputs, reads).0 == FreshnessWithinScope::Current
            || assess_spec(inputs, reads).0 == FreshnessWithinScope::Stale
            || assess_spec(inputs, reads).0 == FreshnessWithinScope::Unknown,
    decreases inputs.len(),
{
    if inputs.len() > 0 {
        let n = inputs.len() - 1;
        let front = inputs.drop_last();
        claim_verdict_follows_its_inputs(front, reads);
        assert forall|i: int| 0 <= i < n implies front[i] == inputs[i] by {}
        if forall|i: int| 0 <= i < inputs.len() ==> #[trigger] input_unchanged(inputs[i], reads[i]) {
            assert(input_unchanged(inputs[n], reads[n]));
            assert forall|i: int| 0 <= i < front.len() implies #[trigger] input_unchanged(front[i], reads[i]) by {
                assert(input_unchanged(inputs[i], reads[i]));
            }
        }
        if exists|i: int| 0 <= i < inputs.len() && #[trigger] input_lost(inputs[i], reads[i]) {
            let i = choose|i: int| 0 <= i < inputs.len() && #[trigger] input_lost(inputs[i], reads[i]);
            if i < n {
                assert(input_lost(front[i], reads[i]));
            }
        }
        if exists|i: int| 0 <= i < front.len() && #[trigger] input_lost(front[i], reads[i]) {
            let i = choose|i: int| 0 <= i < front.len() && #[trigger] input_lost(front[i], reads[i]);
            assert(input_lost(inputs[i], reads[i]));
        }
        if !input_unchanged(inputs[n], reads[n]) {
            assert(!(forall|i: int| 0 <= i < inputs.len() ==> #[trigger] input_unchanged(inputs[i], reads[i])));
        }
        if input_lost(inputs[n], reads[n]) {
            assert(exists|i: int| 0 <= i < inputs.len() && #[trigger] input_lost(inputs[i], reads[i]));
        }
        if forall|i: int| 0 <= i < front.len() ==> #[trigger] input_unchanged(front[i], reads[i]) {
            if input_unchanged(inputs[n], reads[n]) {
                assert forall|i: int| 0 <= i < inputs.len() implies #[trigger] input_unchanged(inputs[i], reads[i]) by {
                    if i < n {
                        assert(input_unchanged(front[i], reads[i]));
                    }
                }
            }
        }
    }
}

/// A location re-reads with its unit as observed.
pub open spec fn unit_as_observed(read: LocationReadView, observed_input: Seq<char>) -> bool {
    read matches LocationReadView::Read { unit, .. } && unit == observed_input
}

/// A location's unit reads differently, or is gone.
pub open spec fn unit_moved_on(read: LocationReadView, observed_input: Seq<char>) -> bool {
    match read {
        LocationReadView::Read { unit, .. } => unit != observed_input,
        LocationReadView::Missing => true,
        LocationReadView::Unverifiable => false,
    }
}

/// An observation is current exactly when its unit re-reads as observed:
/// an edit elsewhere in the file leaves it current (and says so), while a
/// changed or vanished unit stales it.
pub proof fn observation_verdict_follows_its_unit(
    read: LocationReadView,
    observed_input: Seq<char>,
    observed_container: Seq<char>,
)
    ensures
        location_verdict_spec(read, observed_input, observed_container).0 == FreshnessWithinScope::Current
            <==> unit_as_observed(read, observed_input),
        location_verdict_spec(read, observed_input, observed_container).0 == FreshnessWithinScope::Stale
            <==> unit_moved_on(read, observed_input),
        unit_as_observed(read, observed_input) && read->container != observed_container ==> location_verdict_spec(
            read,
            observed_input,
            observed_container,
        ).1 == "observed unit unchanged; container changed outside mediated unit"@,
{
}

/// No two reconciliations of `rs` name the same entity.
pub open spec fn distinct_targets(rs: Seq<Reconciliation>) -> bool {
    forall|i: int, j: int| 0 <= i < j < rs.len() ==> !(#[trigger] rs[i].kind == #[trigger] rs[j].kind && rs[i].id
        == rs[j].id)
}

/// Reconciling to verdicts leaves every entity carrying its verdict, so
/// reconciling again to the same verdicts (a repeated status over an
/// unchanged repository) is standing: it records nothing and changes
/// nothing.
pub proof fn reconciling_again_records_nothing(p: ProjectionView, rs: Seq<Reconciliation>)
    requires
        distinct_targets(rs),
    ensures
        all_standing(reconciled_all(p, rs), rs),
    decreases rs.len(),
{
    if rs.len() > 0 {
        let front = rs.drop_last();
        assert(distinct_targets(front)) by {
            assert forall|i: int, j: int| 0 <= i < j < front.len() implies !(#[trigger] front[i].kind
                == #[trigger] front[j].kind && front[i].id == front[j].id) by {
                assert(front[i] == rs[i] && front[j] == rs[j]);
            }
        }
        reconciling_again_records_nothing(p, front);
        let q = reconciled_all(p, front);
        let last = rs.last();
        assert forall|i: int| 0 <= i < rs.len() implies #[trigger] standing(reconciled(q, last), rs[i]) by {
            if i < rs.len() - 1 {
                assert(front[i] == rs[i]);
                assert(standing(q, front[i]));
                assert(!(rs[i].kind == rs[rs.len() - 1].kind && rs[i].id == rs[rs.len() - 1].id));
            }
        }
    }
}

// ---------------------------------------------------------------------------
// Statuses.

/// Two statuses hold the same values.
pub open spec fn same_status(a: &WorkspaceStatus, b: &WorkspaceStatus) -> bool {
    &&& opt_objective(a.objective) == opt_objective(b.objective)
    &&& vseq(a.working_set@) == vseq(b.working_set@)
    &&& vseq(a.navigation_trail@) == vseq(b.navigation_trail@)
    &&& vseq(a.observations@) == vseq(b.observations@)
    &&& vseq(a.claims@) == vseq(b.claims@)
    &&& vseq(a.superseded_claims@) == vseq(b.superseded_claims@)
    &&& vseq(a.evidence@) == vseq(b.evidence@)
    &&& vseq(a.findings@) == vseq(b.findings@)
    &&& vseq(a.transactions@) == vseq(b.transactions@)
    &&& vseq(a.checkpoints@) == vseq(b.checkpoints@)
    &&& a.observations_since_last_claim == b.observations_since_last_claim
}

proof fn lemma_drop_last_map<T: KeyOf>(s: Seq<T::V>)
    requires
        keys_increasing::<T>(s),
        s.len() > 0,
    ensures
        to_map::<T>(s.drop_last()) == to_map::<T>(s).remove(T::key_of(s.last())),
{
    let k = T::key_of(s.last());
    lemma_to_map_dom::<T>(s.drop_last(), k);
    if to_map::<T>(s.drop_last()).contains_key(k) {
        let i = choose|i: int| 0 <= i < s.drop_last().len() && T::key_of(#[trigger] s.drop_last()[i]) == k;
        assert(s.drop_last()[i] == s[i]);
        assert(T::key_of(s[i]) < T::key_of(s[s.len() - 1]));
    }
    assert(to_map::<T>(s.drop_last()) =~= to_map::<T>(s).remove(k));
}

/// A map has one listing by increasing key.
proof fn lemma_listing_unique<T: KeyOf>(a: Seq<T::V>, b: Seq<T::V>)
    requires
        keys_increasing::<T>(a),
        keys_increasing::<T>(b),
        to_map::<T>(a) == to_map::<T>(b),
    ensures
        a == b,
    decreases a.len(),
{
    if a.len() == 0 {
        if b.len() > 0 {
            lemma_to_map_index::<T>(b, b.len() - 1);
            assert(to_map::<T>(a) == Map::<u64, T::V>::empty());
        }
        assert(a =~= b);
    } else if b.len() == 0 {
        lemma_to_map_index::<T>(a, a.len() - 1);
        assert(to_map::<T>(b) == Map::<u64, T::V>::empty());
    } else {
        let ka = T::key_of(a.last());
        let kb = T::key_of(b.last());
        lemma_to_map_index::<T>(a, a.len() - 1);
        lemma_to_map_index::<T>(b, b.len() - 1);
        lemma_to_map_dom::<T>(a, kb);
        lemma_to_map_dom::<T>(b, ka);
        assert(kb <= ka) by {
            let i = choose|i: int| 0 <= i < a.len() && T::key_of(#[trigger] a[i]) == kb;
            if i < a.len() - 1 {
                assert(T::key_of(a[i]) < T::key_of(a[a.len() - 1]));
            }
        }
        assert(ka <= kb) by {
            let i = choose|i: int| 0 <= i < b.len() && T::key_of(#[trigger] b[i]) == ka;
            if i < b.len() - 1 {
                assert(T::key_of(b[i]) < T::key_of(b[b.len() - 1]));
            }
        }
        lemma_drop_last_map::<T>(a);
        lemma_drop_last_map::<T>(b);
        let (da, db) = (a.drop_last(), b.drop_last());
        assert(keys_increasing::<T>(da)) by {
            assert forall|i: int, j: int| 0 <= i < j < da.len() implies T::key_of(#[trigger] da[i]) < T::key_of(
                #[trigger] da[j],
            ) by {
                assert(da[i] == a[i] && da[j] == a[j]);
            }
        }
        assert(keys_increasing::<T>(db)) by {
            assert forall|i: int, j: int| 0 <= i < j < db.len() implies T::key_of(#[trigger] db[i]) < T::key_of(
                #[trigger] db[j],
            ) by {
                assert(db[i] == b[i] && db[j] == b[j]);
            }
        }
        lemma_listing_unique::<T>(da, db);
        assert(a =~= da.push(a.last()));
        assert(b =~= db.push(b.last()));
    }
}

/// A status is fixed by the projection it reports: every status that holds
/// of one projection lists the same entities, in the same order, with the
/// same counts.
pub proof fn status_is_determined(p: ProjectionView, a: WorkspaceStatus, b: WorkspaceStatus)
    requires
        status_holds(p, &a),
        status_holds(p, &b),
    ensures
        same_status(&a, &b),
{
    lemma_listing_unique::<crate::model::WorkingSetEntry>(vseq(a.working_set@), vseq(b.working_set@));
    lemma_listing_unique::<Observation>(vseq(a.observations@), vseq(b.observations@));
    lemma_listing_unique::<Claim>(vseq(a.claims@), vseq(b.claims@));
    lemma_listing_unique::<Claim>(vseq(a.superseded_claims@), vseq(b.superseded_claims@));
    lemma_listing_unique::<crate::model::Evidence>(vseq(a.evidence@), vseq(b.evidence@));
    lemma_listing_unique::<crate::model::Finding>(vseq(a.findings@), vseq(b.findings@));
    lemma_listing_unique::<Transaction>(vseq(a.transactions@), vseq(b.transactions@));
}

/// Two status passes over an unchanged repository: once the first has
/// reconciled to its verdicts (and reported `first`), the second, handed the
/// same verdicts, finds every one of them standing, so it records nothing,
/// and what it reports holds the same values as the first.
pub proof fn a_repeated_status_records_nothing(
    p: ProjectionView,
    q: ProjectionView,
    rs: Seq<Reconciliation>,
    first: WorkspaceStatus,
    second: WorkspaceStatus,
)
    requires
        distinct_targets(rs),
        same_but_sequence(q, reconciled_all(p, rs)),
        status_holds(q, &first),
        status_holds(q, &second),
    ensures
        all_standing(q, rs),
        same_status(&first, &second),
{
    reconciling_again_records_nothing(p, rs);
    let r = reconciled_all(p, rs);
    assert(q.observations == r.observations && q.claims == r.claims && q.evidence == r.evidence
        && q.findings == r.findings);
    assert forall|i: int| 0 <= i < rs.len() implies #[trigger] standing(q, rs[i]) by {
        assert(standing(r, rs[i]));
    }
    status_is_determined(q, first, second);
}

// ---------------------------------------------------------------------------
// Deltas.

proof fn lemma_chosen_unique(
    cps: Seq<CheckpointMarkerView>,
    label: Option<Seq<char>>,
    a: CheckpointMarkerView,
    b: CheckpointMarkerView,
)
    requires
        chosen_checkpoint(cps, label, a),
        chosen_checkpoint(cps, label, b),
    ensures
        a == b,
{
    if let Some(l) = label {
        let i = choose|k: int|
            0 <= k < cps.len() && #[trigger] cps[k] == a && a.label == l && forall|j: int|
                0 <= j < k ==> (#[trigger] cps[j]).label != l;
        let k = choose|k: int|
            0 <= k < cps.len() && #[trigger] cps[k] == b && b.label == l && forall|j: int|
                0 <= j < k ==> (#[trigger] cps[j]).label != l;
        if i < k {
            assert(cps[i].label != l);
        }
        if k < i {
            assert(cps[k].label != l);
        }
    }
}

proof fn lemma_same_claim_ids(x: Seq<Claim>, y: Seq<Claim>)
    requires
        vseq(x) == vseq(y),
    ensures
        claim_ids(x) == claim_ids(y),
{
    assert(x.len() == vseq(x).len() && y.len() == vseq(y).len());
    assert forall|i: int| 0 <= i < x.len() implies x[i].id == y[i].id by {
        assert(vseq(x)[i] == vseq(y)[i]);
        assert(vseq(x)[i] == x[i]@ && vseq(y)[i] == y[i]@);
    }
    assert(claim_ids(x) =~= claim_ids(y));
}

proof fn lemma_same_observation_ids(x: Seq<Observation>, y: Seq<Observation>)
    requires
        vseq(x) == vseq(y),
    ensures
        x.map_values(|o: Observation| o.id) == y.map_values(|o: Observation| o.id),
{
    assert(x.len() == vseq(x).len() && y.len() == vseq(y).len());
    assert forall|i: int| 0 <= i < x.len() implies x[i].id == y[i].id by {
        assert(vseq(x)[i] == vseq(y)[i]);
        assert(vseq(x)[i] == x[i]@ && vseq(y)[i] == y[i]@);
    }
    assert(x.map_values(|o: Observation| o.id) =~= y.map_values(|o: Observation| o.id));
}

proof fn lemma_same_transaction_ids(x: Seq<Transaction>, y: Seq<Transaction>)
    requires
        vseq(x) == vseq(y),
    ensures
        x.map_values(|t: Transaction| t.id) == y.map_values(|t: Transaction| t.id),
{
    assert(x.len() == vseq(x).len() && y.len() == vseq(y).len());
    assert forall|i: int| 0 <= i < x.len() implies x[i].id == y[i].id by {
        assert(vseq(x)[i] == vseq(y)[i]);
        assert(vseq(x)[i] == x[i]@ && vseq(y)[i] == y[i]@);
    }
    assert(x.map_values(|t: Transaction| t.id) =~= y.map_values(|t: Transaction| t.id));
}

/// A bounded delta and a full delta over one log, each taken against the
/// checkpoint that one label chooses and on one reconciled state (equal up
/// to the sequence counter), agree: the bounded delta is the brief of the
/// full one, with the same checkpoint, the same objective change, and the
/// ids of each kind of change capped as the brief caps them.
pub proof fn bounded_delta_is_the_brief_of_the_full_delta(
    records: Seq<EventRecord>,
    cps: Seq<CheckpointMarkerView>,
    label: Option<Seq<char>>,
    p1: ProjectionView,
    p2: ProjectionView,
    st1: WorkspaceStatus,
    st2: WorkspaceStatus,
    full: DeltaStatus,
    d: DeltaStatus,
    bounded: BriefDeltaStatus,
)
    requires
        same_but_sequence(p1, p2),
        status_holds(p1, &st1),
        status_holds(p2, &st2),
        chosen_checkpoint(cps, label, full.checkpoint@),
        chosen_checkpoint(cps, label, d.checkpoint@),
        delta_holds(
            full.checkpoint@,
            spec_replay(empty_projection(), records, Some(full.checkpoint.sequence))->Ok_0,
            &st1,
            &full,
        ),
        delta_holds(
            d.checkpoint@,
            spec_replay(empty_projection(), records, Some(d.checkpoint.sequence))->Ok_0,
            &st2,
            &d,
        ),
        delta_brief_holds(&d, &bounded),
    ensures
        delta_brief_holds(&full, &bounded),
{
    lemma_chosen_unique(cps, label, full.checkpoint@, d.checkpoint@);
    assert(full.checkpoint.sequence == d.checkpoint.sequence);
    assert(status_holds(p1, &st2));
    status_is_determined(p1, st1, st2);
    lemma_same_claim_ids(full.claims_recorded@, d.claims_recorded@);
    lemma_same_claim_ids(full.claims_superseded@, d.claims_superseded@);
    lemma_same_claim_ids(full.claims_staled@, d.claims_staled@);
    lemma_same_observation_ids(full.observations_recorded@, d.observations_recorded@);
    lemma_same_transaction_ids(full.transactions_opened@, d.transactions_opened@);
    lemma_same_transaction_ids(full.transactions_closed@, d.transactions_closed@);
}

// ---------------------------------------------------------------------------
// The candidate fingerprint.

/// What of a mutation the candidate fingerprint folds: its path and its
/// after-fingerprint.
pub open spec fn candidate_key(m: MutationView) -> (Seq<char>, Seq<char>) {
    (m.path, m.after_fingerprint)
}

/// The path order of mutations, non-strict.
pub open spec fn mutation_le() -> spec_fn(MutationView, MutationView) -> bool {
    |a: MutationView, b: MutationView| !path_less_spec(b.path, a.path)
}

/// The path order of folded pairs, non-strict.
pub open spec fn key_le() -> spec_fn((Seq<char>, Seq<char>), (Seq<char>, Seq<char>)) -> bool {
    |a: (Seq<char>, Seq<char>), b: (Seq<char>, Seq<char>)| !path_less_spec(b.0, a.0)
}

/// No two mutations of `s` share a path.
pub open spec fn distinct_paths(s: Seq<MutationView>) -> bool {
    forall|i: int, j: int| 0 <= i < s.len() && 0 <= j < s.len() && i != j ==> #[trigger] s[i].path != #[trigger] s[j].path
}

proof fn lemma_insert_by_path_is_insert_by(s: Seq<MutationView>, m: MutationView)
    ensures
        insert_by_path(s, m) == insert_by(s, m, mutation_le()),
    decreases s.len(),
{
    if s.len() == 0 {
        assert(s.push(m) =~= seq![m]);
    } else if path_less_spec(m.path, s.last().path) {
        lemma_insert_by_path_is_insert_by(s.drop_last(), m);
    }
}

proof fn lemma_sort_by_path_is_sort_by(s: Seq<MutationView>)
    ensures
        sort_by_path(s) == sort_by(s, mutation_le()),
    decreases s.len(),
{
    if s.len() > 0 {
        lemma_sort_by_path_is_sort_by(s.drop_last());
        lemma_insert_by_path_is_insert_by(sort_by_path(s.drop_last()), s.last());
    }
}

proof fn lemma_insert_keys(s: Seq<MutationView>, m: MutationView)
    ensures
        insert_by(s, m, mutation_le()).map_values(|x: MutationView| candidate_key(x)) == insert_by(
            s.map_values(|x: MutationView| candidate_key(x)),
            candidate_key(m),
            key_le(),
        ),
    decreases s.len(),
{
    let ks = s.map_values(|x: MutationView| candidate_key(x));
    if s.len() == 0 {
        assert(seq![m].map_values(|x: MutationView| candidate_key(x)) =~= seq![candidate_key(m)]);
    } else {
        assert(ks.last() == candidate_key(s.last()));
        assert(ks.drop_last() =~= s.drop_last().map_values(|x: MutationView| candidate_key(x)));
        if (mutation_le())(s.last(), m) {
            assert(s.push(m).map_values(|x: MutationView| candidate_key(x)) =~= ks.push(candidate_key(m)));
        } else {
            lemma_insert_keys(s.drop_last(), m);
            let t = insert_by(s.drop_last(), m, mutation_le());
            assert(t.push(s.last()).map_values(|x: MutationView| candidate_key(x)) =~= t.map_values(
                |x: MutationView| candidate_key(x),
            ).push(candidate_key(s.last())));
        }
    }
}

proof fn lemma_sort_keys(s: Seq<MutationView>)
    ensures
        sort_by(s, mutation_le()).map_values(|x: MutationView| candidate_key(x)) == sort_by(
            s.map_values(|x: MutationView| candidate_key(x)),
            key_le(),
        ),
    decreases s.len(),
{
    let ks = s.map_values(|x: MutationView| candidate_key(x));
    if s.len() == 0 {
        assert(sort_by(s, mutation_le()).map_values(|x: MutationView| candidate_key(x)) =~= Seq::<
            (Seq<char>, Seq<char>),
        >::empty());
    } else {
        lemma_sort_keys(s.drop_last());
        lemma_insert_keys(sort_by(s.drop_last(), mutation_le()), s.last());
        assert(ks.drop_last() =~= s.drop_last().map_values(|x: MutationView| candidate_key(x)));
        assert(ks.last() == candidate_key(s.last()));
    }
}

proof fn lemma_material_by_keys(x: Seq<MutationView>, y: Seq<MutationView>)
    requires
        x.map_values(|m: MutationView| candidate_key(m)) == y.map_values(|m: MutationView| candidate_key(m)),
    ensures
        candidate_material(x) == candidate_material(y),
    decreases x.len(),
{
    let kx = x.map_values(|m: MutationView| candidate_key(m));
    let ky = y.map_values(|m: MutationView| candidate_key(m));
    assert(x.len() == kx.len() && y.len() == ky.len());
    if x.len() > 0 {
        assert(kx[x.len() - 1] == ky[y.len() - 1]);
        assert(x.drop_last().map_values(|m: MutationView| candidate_key(m)) =~= kx.drop_last());
        assert(y.drop_last().map_values(|m: MutationView| candidate_key(m)) =~= ky.drop_last());
        lemma_material_by_keys(x.drop_last(), y.drop_last());
    }
}

proof fn lemma_key_le_total()
    ensures
        crate::sort::total_order(key_le()),
{
    assert forall|a: (Seq<char>, Seq<char>), b: (Seq<char>, Seq<char>)| #[trigger] (key_le())(a, b) || (key_le())(b, a) by {
        lemma_bytes_less_total(utf8(a.0), utf8(b.0));
    }
    assert forall|a: (Seq<char>, Seq<char>), b: (Seq<char>, Seq<char>), c: (Seq<char>, Seq<char>)|
        #[trigger] (key_le())(a, b) && #[trigger] (key_le())(b, c) implies (key_le())(a, c) by {
        lemma_path_le_trans(a.0, b.0, c.0);
    }
}

/// The candidate fingerprint of a transaction whose mutations have distinct
/// paths depends only on which (path, after-fingerprint) pairs they carry:
/// the same mutations in another order, or mutations differing only in
/// their other fields, give the same material and so the same fingerprint.
pub proof fn candidate_fingerprint_ignores_order(s: Seq<MutationView>, t: Seq<MutationView>)
    requires
        distinct_paths(s),
        s.map_values(|m: MutationView| candidate_key(m)).to_multiset() == t.map_values(
            |m: MutationView| candidate_key(m),
        ).to_multiset(),
    ensures
        candidate_material(sort_by_path(s)) == candidate_material(sort_by_path(t)),
        hex_digest_spec(candidate_material(sort_by_path(s))) == hex_digest_spec(
            candidate_material(sort_by_path(t)),
        ),
{
    let ks = s.map_values(|m: MutationView| candidate_key(m));
    let kt = t.map_values(|m: MutationView| candidate_key(m));
    lemma_key_le_total();
    assert(crate::sort::antisymmetric_on(ks, key_le())) by {
        assert forall|i: int, j: int|
            0 <= i < ks.len() && 0 <= j < ks.len() && (key_le())(#[trigger] ks[i], #[trigger] ks[j]) && (key_le())(
                ks[j],
                ks[i],
            ) implies ks[i] == ks[j] by {
            lemma_bytes_less_total(utf8(ks[i].0), utf8(ks[j].0));
            vstd::utf8::encode_utf8_decode_utf8(ks[i].0);
            vstd::utf8::encode_utf8_decode_utf8(ks[j].0);
            assert(s[i].path == s[j].path);
        }
    }
    lemma_sort_by_permutation(ks, kt, key_le());
    lemma_sort_by_path_is_sort_by(s);
    lemma_sort_by_path_is_sort_by(t);
    lemma_sort_keys(s);
    lemma_sort_keys(t);
    lemma_material_by_keys(sort_by_path(s), sort_by_path(t));
}

// ---------------------------------------------------------------------------
// The wake.

proof fn lemma_compose_nonempty(input: WakeInputView, up: Set<Candidate>)
    ensures
        compose_spec(input, up).len() > 0,
{
    reveal(compose_spec);
    let (lines, shortened) = body_lines(input, up);
    let lines = if shortened > 0 {
        lines.push("more: "@ + crate::text::decimal(shortened) + " shortened · workspace_status|workspace_delta full=true"@)
    } else {
        lines
    };
    assert(lines.len() > 0);
    assert(compose_spec(input, up) == lines_text(lines));
    assert(lines_text(lines).len() > 0);
}

proof fn lemma_render_fold_nonempty(input: WakeInputView, cs: Seq<Candidate>)
    ensures
        render_fold(input, cs).1.len() > 0,
    decreases cs.len(),
{
    if cs.len() == 0 {
        lemma_compose_nonempty(input, Set::empty());
    } else {
        lemma_render_fold_nonempty(input, cs.drop_last());
        lemma_compose_nonempty(input, render_fold(input, cs.drop_last()).0.insert(cs.last()));
    }
}

/// The wake is empty exactly when there is nothing to orient to: no goal,
/// no checkpoint, no active claim, no open work and no governing knowledge.
pub proof fn wake_is_empty_exactly_when_quiet(input: WakeInputView)
    ensures
        (render_spec(input).len() == 0) == is_quiet_spec(input),
{
    broadcast use vstd::seq_lib::group_to_multiset_ensures;

    let n = normalized_spec(input);
    lemma_sort_by_multiset(input.open, item_order());
    vstd::seq_lib::to_multiset_len(input.open);
    vstd::seq_lib::to_multiset_len(sort_by(input.open, item_order()));
    assert(n.open.len() == input.open.len());
    if !is_quiet_spec(n) {
        let t = render_fold(n, crate::summary::candidates_spec(n)).1;
        lemma_render_fold_nonempty(n, crate::summary::candidates_spec(n));
        assert(enforce_budget_spec(t).len() > 0);
    }
}

// ---------------------------------------------------------------------------
// The state root.

/// With no workspace override, the state root lies under its base: the base
/// joined with the project identity. Checkouts whose canonical git common
/// directories agree, as linked worktrees of one repository do, share one
/// root.
pub proof fn state_root_lies_under_its_base(base: Seq<char>, source: Seq<char>, other: Seq<char>)
    ensures
        base.is_prefix_of(join_path(base, hex_digest_spec(utf8(source)))),
        source == other ==> join_path(base, hex_digest_spec(utf8(source))) == join_path(
            base,
            hex_digest_spec(utf8(other)),
        ),
{
    let h = hex_digest_spec(utf8(source));
    lemma_hex_encode_chars(crate::digest::sha256_spec(utf8(source)));
    if h.len() > 0 {
        assert(crate::digest::is_hex_lower(h[0]));
    }
}

// ---------------------------------------------------------------------------
// Acceptance.

proof fn lemma_find_first_found(claims: Seq<ClaimView>, id: u64)
    requires
        find_first::<Claim>(claims, id) is Some,
    ensures
        exists|k: int| 0 <= k < claims.len() && #[trigger] claims[k] == find_first::<Claim>(claims, id)->0 && claims[k].id == id,
    decreases claims.len(),
{
    if claims[0].id != id {
        lemma_find_first_found(claims.drop_first(), id);
        let k = choose|k: int| 0 <= k < claims.drop_first().len() && #[trigger] claims.drop_first()[k] == find_first::<Claim>(claims.drop_first(), id)->0 && claims.drop_first()[k].id == id;
        assert(claims[k + 1] == claims.drop_first()[k]);
    } else {
        assert(claims[0] == find_first::<Claim>(claims, id)->0);
    }
}

proof fn lemma_no_blocker(claims: Seq<ClaimView>, evidence: Seq<EvidenceView>, ids: Seq<u64>, candidate: Seq<char>)
    requires
        first_blocker(claims, evidence, ids, candidate) is None,
    ensures
        forall|j: int| 0 <= j < ids.len() ==> has_bound_passing_evidence(evidence, #[trigger] ids[j], candidate) && (
        find_first::<Claim>(claims, ids[j]) matches Some(c) && c.report.freshness_within_scope
            == FreshnessWithinScope::Current),
    decreases ids.len(),
{
    if ids.len() > 0 {
        lemma_no_blocker(claims, evidence, ids.drop_first(), candidate);
        assert forall|j: int| 0 <= j < ids.len() implies has_bound_passing_evidence(evidence, #[trigger] ids[j], candidate) && (
            find_first::<Claim>(claims, ids[j]) matches Some(c) && c.report.freshness_within_scope
                == FreshnessWithinScope::Current) by {
            if j > 0 {
                assert(ids.drop_first()[j - 1] == ids[j]);
            }
        }
    }
}

/// A transaction is accepted (and previewed as ready) only when nothing
/// drifted, it is open, and every acceptance claim is recorded and current
/// with evidence for that claim that passed, is current, and is bound to the
/// transaction's current candidate: failing or stale evidence, or evidence
/// bound to another candidate, never makes a transaction ready.
pub proof fn acceptance_needs_current_passing_evidence(
    st: WorkspaceStatus,
    t: TransactionView,
    drift: Option<Seq<char>>,
)
    requires
        acceptance_decision(&st, t, drift).0,
    ensures
        drift is None,
        t.state == TransactionState::Open,
        forall|j: int|
            #![trigger t.acceptance_claim_ids[j]]
            0 <= j < t.acceptance_claim_ids.len() ==> exists|k: int|
                0 <= k < vseq(st.claims@).len() && #[trigger] vseq(st.claims@)[k].id == t.acceptance_claim_ids[j]
                    && vseq(st.claims@)[k].report.freshness_within_scope == FreshnessWithinScope::Current,
        forall|j: int|
            #![trigger t.acceptance_claim_ids[j]]
            0 <= j < t.acceptance_claim_ids.len() ==> exists|i: int|
                0 <= i < vseq(st.evidence@).len() && #[trigger] vseq(st.evidence@)[i].claim_id
                    == t.acceptance_claim_ids[j] && vseq(st.evidence@)[i].outcome == EvidenceOutcome::Passed
                    && vseq(st.evidence@)[i].report.freshness_within_scope == FreshnessWithinScope::Current
                    && vseq(st.evidence@)[i].candidate_fingerprint == candidate_of(t),
{
    let claims = vseq(st.claims@);
    let evidence = vseq(st.evidence@);
    let ids = t.acceptance_claim_ids;
    assert(first_blocker(claims, evidence, ids, candidate_of(t)) is None);
    lemma_no_blocker(claims, evidence, ids, candidate_of(t));
    assert forall|j: int| #![trigger t.acceptance_claim_ids[j]] 0 <= j < ids.len() implies exists|k: int|
        0 <= k < claims.len() && #[trigger] claims[k].id == ids[j]
            && claims[k].report.freshness_within_scope == FreshnessWithinScope::Current by {
        assert(has_bound_passing_evidence(evidence, ids[j], candidate_of(t)));
        lemma_find_first_found(claims, ids[j]);
        let k = choose|k: int| 0 <= k < claims.len() && #[trigger] claims[k] == find_first::<Claim>(claims, ids[j])->0 && claims[k].id == ids[j];
        assert(claims[k].id == ids[j]);
    }
    assert forall|j: int| #![trigger t.acceptance_claim_ids[j]] 0 <= j < ids.len() implies exists|i: int|
        0 <= i < evidence.len() && #[trigger] evidence[i].claim_id == ids[j] && evidence[i].outcome
            == EvidenceOutcome::Passed && evidence[i].report.freshness_within_scope
            == FreshnessWithinScope::Current && evidence[i].candidate_fingerprint == candidate_of(t) by {
        assert(has_bound_passing_evidence(evidence, ids[j], candidate_of(t)));
    }
}

// ---------------------------------------------------------------------------
// Selections.

proof fn lemma_select_members<A>(s: Seq<A>, p: spec_fn(A) -> bool)
    ensures
        forall|i: int| 0 <= i < select_where(s, p).len() ==> p(#[trigger] select_where(s, p)[i]) && s.contains(
            select_where(s, p)[i],
        ),
        forall|x: A| s.contains(x) && p(x) ==> #[trigger] select_where(s, p).contains(x),
    decreases s.len(),
{
    if s.len() > 0 {
        let d = s.drop_last();
        lemma_select_members(d, p);
        let q = select_where(d, p);
        assert forall|i: int| 0 <= i < select_where(s, p).len() implies p(#[trigger] select_where(s, p)[i])
            && s.contains(select_where(s, p)[i]) by {
            if i < q.len() {
                assert(select_where(s, p)[i] == q[i]);
                let k = choose|k: int| 0 <= k < d.len() && d[k] == q[i];
                assert(s[k] == d[k]);
            } else {
                assert(select_where(s, p)[i] == s.last());
                assert(s[s.len() - 1] == s.last());
            }
        }
        assert forall|x: A| s.contains(x) && p(x) implies #[trigger] select_where(s, p).contains(x) by {
            let k = choose|k: int| 0 <= k < s.len() && s[k] == x;
            if k < s.len() - 1 {
                assert(d[k] == x);
                assert(q.contains(x));
                let m = choose|m: int| 0 <= m < q.len() && q[m] == x;
                assert(select_where(s, p)[m] == x);
            } else {
                assert(select_where(s, p)[select_where(s, p).len() - 1] == x);
            }
        }
    }
}

/// A delta lists as staled exactly the claims of the current status that
/// are stale now and were active and current at the checkpoint: a claim
/// that is still current is never listed as staled.
pub proof fn staled_claims_are_stale_now(
    checkpoint: CheckpointMarkerView,
    b: ProjectionView,
    st: WorkspaceStatus,
    d: DeltaStatus,
)
    requires
        delta_holds(checkpoint, b, &st, &d),
    ensures
        forall|i: int|
            0 <= i < vseq(d.claims_staled@).len() ==> {
                let c = #[trigger] vseq(d.claims_staled@)[i];
                &&& c.report.freshness_within_scope == FreshnessWithinScope::Stale
                &&& vseq(st.claims@).contains(c)
                &&& b.claims.contains_key(c.id)
                &&& b.claims[c.id].lifecycle is Active
                &&& b.claims[c.id].report.freshness_within_scope == FreshnessWithinScope::Current
            },
        forall|c: ClaimView|
            #![trigger vseq(d.claims_staled@).contains(c)]
            vseq(st.claims@).contains(c) && c.report.freshness_within_scope == FreshnessWithinScope::Stale
                && b.claims.contains_key(c.id) && (b.claims[c.id].lifecycle is Active)
                && b.claims[c.id].report.freshness_within_scope == FreshnessWithinScope::Current
                ==> vseq(d.claims_staled@).contains(c),
{
    lemma_select_members(vseq(st.claims@), crate::delta::staled_claim(b));
}

// ---------------------------------------------------------------------------
// The working set.

/// Stale before unknown before current, and within one freshness the most
/// recently focused first.
pub open spec fn recent_focus_first(s: Seq<SemanticLocationView>) -> bool {
    forall|i: int, j: int|
        0 <= i < j < s.len() ==> {
            &&& (#[trigger] s[j]).freshness == FreshnessWithinScope::Stale ==> (#[trigger] s[i]).freshness
                == FreshnessWithinScope::Stale
            &&& s[i].freshness == FreshnessWithinScope::Current ==> s[j].freshness == FreshnessWithinScope::Current
            &&& s[i].freshness == s[j].freshness ==> s[i].focus_sequence >= s[j].focus_sequence
        }
}

proof fn lemma_newest_current(s: Seq<SemanticLocationView>)
    ensures
        newest_current(s) is None ==> forall|m: int| 0 <= m < s.len() ==> (#[trigger] s[m]).freshness
            != FreshnessWithinScope::Current,
        newest_current(s) is Some ==> {
            &&& exists|k: int| 0 <= k < s.len() && #[trigger] s[k] == newest_current(s)->0
            &&& newest_current(s)->0.freshness == FreshnessWithinScope::Current
            &&& forall|m: int|
                0 <= m < s.len() && (#[trigger] s[m]).freshness == FreshnessWithinScope::Current
                    ==> s[m].focus_sequence <= newest_current(s)->0.focus_sequence
        },
    decreases s.len(),
{
    if s.len() > 0 {
        let d = s.drop_last();
        lemma_newest_current(d);
        if newest_current(d) is Some {
            let k = choose|k: int| 0 <= k < d.len() && #[trigger] d[k] == newest_current(d)->0;
            assert(s[k] == d[k]);
        }
        if newest_current(s) is Some && newest_current(s)->0 == s.last() {
            assert(s[s.len() - 1] == s.last());
        }
        assert forall|m: int| 0 <= m < s.len() - 1 implies #[trigger] s[m] == d[m] by {}
    }
}

proof fn lemma_ranked(joined: Seq<SemanticLocationView>, perm: Seq<usize>)
    requires
        stable_order(location_keys(joined), perm),
    ensures
        recent_focus_first(permuted(joined, perm)),
{
    let s = permuted(joined, perm);
    let keys = location_keys(joined);
    assert forall|i: int, j: int| 0 <= i < j < s.len() implies {
        &&& (#[trigger] s[j]).freshness == FreshnessWithinScope::Stale ==> (#[trigger] s[i]).freshness
            == FreshnessWithinScope::Stale
        &&& s[i].freshness == FreshnessWithinScope::Current ==> s[j].freshness == FreshnessWithinScope::Current
        &&& s[i].freshness == s[j].freshness ==> s[i].focus_sequence >= s[j].focus_sequence
    } by {
        assert(ranked_before(keys[perm[i] as int], perm[i], keys[perm[j] as int], perm[j]));
        assert(keys[perm[i] as int] == crate::attention::location_key(joined[perm[i] as int]));
        assert(keys[perm[j] as int] == crate::attention::location_key(joined[perm[j] as int]));
        assert(s[i] == joined[perm[i] as int] && s[j] == joined[perm[j] as int]);
    }
}

proof fn lemma_bounded_ranked(s: Seq<SemanticLocationView>)
    requires
        recent_focus_first(s),
    ensures
        recent_focus_first(bounded_locations(s)),
{
    let n = WORKING_SET_LOCATION_LIMIT as int;
    if s.len() > n {
        let t = s.take(n);
        assert(recent_focus_first(t)) by {
            assert forall|i: int, j: int| 0 <= i < j < t.len() implies {
                &&& (#[trigger] t[j]).freshness == FreshnessWithinScope::Stale ==> (#[trigger] t[i]).freshness
                    == FreshnessWithinScope::Stale
                &&& t[i].freshness == FreshnessWithinScope::Current ==> t[j].freshness == FreshnessWithinScope::Current
                &&& t[i].freshness == t[j].freshness ==> t[i].focus_sequence >= t[j].focus_sequence
            } by {
                assert(t[i] == s[i] && t[j] == s[j]);
            }
        }
        if let Some(c) = newest_current(s) {
            if !(exists|i: int| 0 <= i < n && #[trigger] t[i].observation_id == c.observation_id) {
                lemma_newest_current(s);
                let k = choose|k: int| 0 <= k < s.len() && #[trigger] s[k] == c;
                if k < n {
                    assert(t[k].observation_id == c.observation_id);
                }
                let u = t.update(n - 1, c);
                assert forall|i: int, j: int| 0 <= i < j < u.len() implies {
                    &&& (#[trigger] u[j]).freshness == FreshnessWithinScope::Stale ==> (#[trigger] u[i]).freshness
                        == FreshnessWithinScope::Stale
                    &&& u[i].freshness == FreshnessWithinScope::Current ==> u[j].freshness == FreshnessWithinScope::Current
                    &&& u[i].freshness == u[j].freshness ==> u[i].focus_sequence >= u[j].focus_sequence
                } by {
                    if j == n - 1 {
                        assert(u[i] == s[i] && u[j] == s[k]);
                        assert(s[k].freshness == FreshnessWithinScope::Current);
                        if s[i].freshness == FreshnessWithinScope::Current {
                            assert(s[i].focus_sequence <= c.focus_sequence);
                        }
                    } else {
                        assert(u[i] == s[i] && u[j] == s[j]);
                    }
                }
            }
        }
    }
}

/// The working-set locations are listed stale first, then unknown, then
/// current, and within one freshness the most recently focused first; so
/// when more are focused than the view holds, the oldest focuses of a kind
/// are the ones left out.
pub proof fn working_set_lists_recent_focus_first(st: WorkspaceStatus, window: Option<Seq<u64>>, r: WorkingSetView)
    requires
        working_set_view_holds(&st, window, &r),
    ensures
        recent_focus_first(vseq(r.locations@)),
{
    let joined = crate::attention::joined_locations(vseq(st.working_set@), vseq(st.observations@));
    let perm = choose|perm: Seq<usize>|
        #[trigger] stable_order(location_keys(joined), perm) && vseq(r.locations@) == bounded_locations(
            permuted(joined, perm),
        );
    lemma_ranked(joined, perm);
    lemma_bounded_ranked(permuted(joined, perm));
}

// ---------------------------------------------------------------------------
// The wake's account of a goal change.

/// `text` holds `line` as one of its lines.
pub open spec fn holds_line(text: Seq<char>, line: Seq<char>) -> bool {
    exists|p: int|
        0 <= p && p + line.len() < text.len() && #[trigger] text.subrange(p, p + line.len()) == line && text[p
            + line.len()] == '\n' && (p == 0 || text[p - 1] == '\n')
}

/// The wake's layout without any upgrade fits the byte budget, so nothing
/// of it is cut.
pub open spec fn skeleton_fits(input: WakeInputView) -> bool {
    blen(compose_spec(normalized_spec(input), Set::empty())) <= WAKE_BUDGET_BYTES as nat
}

proof fn lemma_lines_text_ends(lines: Seq<Seq<char>>)
    ensures
        lines.len() == 0 ==> lines_text(lines).len() == 0,
        lines.len() > 0 ==> lines_text(lines).len() > 0 && lines_text(lines).last() == '\n',
{
}

proof fn lemma_lines_text_holds(lines: Seq<Seq<char>>, k: int)
    requires
        0 <= k < lines.len(),
    ensures
        holds_line(lines_text(lines), lines[k]),
    decreases lines.len(),
{
    let d = lines.drop_last();
    let front = lines_text(d);
    let text = lines_text(lines);
    lemma_lines_text_ends(d);
    assert(text == front + lines.last() + seq!['\n']);
    if k == lines.len() - 1 {
        let p = front.len() as int;
        assert(text.subrange(p, p + lines[k].len()) =~= lines[k]);
        assert(text[p + lines[k].len()] == '\n');
        if p > 0 {
            assert(text[p - 1] == front.last());
        }
    } else {
        assert(d[k] == lines[k]);
        lemma_lines_text_holds(d, k);
        let line = lines[k];
        let p = choose|p: int|
            0 <= p && p + line.len() < front.len() && #[trigger] front.subrange(p, p + line.len()) == line && front[p
                + line.len()] == '\n' && (p == 0 || front[p - 1] == '\n');
        assert(text.subrange(p, p + line.len()) =~= front.subrange(p, p + line.len()));
        assert(text[p + line.len()] == front[p + line.len()]);
        if p > 0 {
            assert(text[p - 1] == front[p - 1]);
        }
    }
}

proof fn lemma_fold_fits(input: WakeInputView, cs: Seq<Candidate>)
    requires
        blen(compose_spec(input, Set::empty())) <= WAKE_BUDGET_BYTES as nat,
    ensures
        exists|up: Set<Candidate>| #[trigger] compose_spec(input, up) == render_fold(input, cs).1,
        blen(render_fold(input, cs).1) <= WAKE_BUDGET_BYTES as nat,
    decreases cs.len(),
{
    if cs.len() == 0 {
        assert(compose_spec(input, Set::empty()) == render_fold(input, cs).1);
    } else {
        lemma_fold_fits(input, cs.drop_last());
        let prev = render_fold(input, cs.drop_last());
        let up = prev.0.insert(cs.last());
        if blen(compose_spec(input, up)) <= WAKE_BUDGET_BYTES as nat {
            assert(compose_spec(input, up) == render_fold(input, cs).1);
        }
    }
}

proof fn lemma_join_ends(parts: Seq<Seq<char>>, sep: Seq<char>)
    requires
        parts.len() > 0,
    ensures
        exists|y: Seq<char>| #[trigger] (y + parts.last()) == join(parts, sep),
{
    if parts.len() == 1 {
        assert(Seq::<char>::empty() + parts.last() =~= join(parts, sep));
    } else {
        let y = join(parts.drop_last(), sep) + sep;
        assert(y + parts.last() == join(parts, sep));
    }
}

/// The line a wake gives a goal change, when its layout holds one: the
/// `since then:` line names it.
proof fn lemma_goal_change_line(input: WakeInputView, up: Set<Candidate>, c: WakeCheckpointView)
    requires
        input.checkpoint == Some(c),
        c.goal_changed,
    ensures
        exists|x: Seq<char>| #[trigger] holds_line(compose_spec(input, up), "since then: "@ + x + "goal changed"@),
{
    reveal(compose_spec);
    reveal_strlit("goal changed");
    let act = activity(c);
    assert(act.last() == "goal changed"@);
    lemma_join_ends(act, " · "@);
    let y = choose|y: Seq<char>| #[trigger] (y + act.last()) == join(act, " · "@);
    let raw = "since then: "@ + join(act, " · "@);
    assert(raw =~= "since then: "@ + y + "goal changed"@);
    assert(raw.last() == 'd');
    assert(trim_end(raw) == raw);
    let (since, n_since) = since_section(c, up);
    assert(since[0] == raw);
    let (lines0, shortened) = body_lines(input, up);
    let (goal, n_goal) = match input.goal {
        Some(g) => {
            let (t, cut) = clip_spec(g, crate::summary::GOAL_CAP as nat);
            (seq!["goal: "@ + t], if cut { 1nat } else { 0nat })
        },
        None => (Seq::<Seq<char>>::empty(), 0nat),
    };
    let (stop, n_stop) = {
        let (l, n) = crate::summary::stop_line(c, up);
        (seq![l], n)
    };
    let (gov, n_gov) = crate::summary::governs_section(input.governs, up);
    let (open, n_open) = crate::summary::items_section(input.open, up);
    let claims = if input.active_claims > 0 {
        seq![crate::summary::claims_line_spec(input)]
    } else {
        Seq::empty()
    };
    let pre = seq![crate::summary::HEADER@] + goal + stop + gov;
    assert(lines0 == pre + since + open + claims);
    let k = pre.len() as int;
    assert(lines0[k] == since[0]);
    let lines = if shortened > 0 {
        lines0.push("more: "@ + crate::text::decimal(shortened) + " shortened · workspace_status|workspace_delta full=true"@)
    } else {
        lines0
    };
    assert(lines[k] == raw);
    assert(compose_spec(input, up) == lines_text(lines));
    lemma_lines_text_holds(lines, k);
    assert(raw == "since then: "@ + y + "goal changed"@);
    assert(holds_line(compose_spec(input, up), "since then: "@ + y + "goal changed"@));
}

/// A wake whose checkpoint records that the goal changed says so: when
/// nothing of the wake is cut, it holds a `since then:` line that ends by
/// naming the goal change.
pub proof fn wake_reports_a_goal_change(input: WakeInputView)
    requires
        input.checkpoint matches Some(c) && c.goal_changed,
        skeleton_fits(input),
    ensures
        exists|x: Seq<char>| #[trigger] holds_line(render_spec(input), "since then: "@ + x + "goal changed"@),
{
    let n = normalized_spec(input);
    let c = n.checkpoint->0;
    assert(!is_quiet_spec(n));
    let cs = crate::summary::candidates_spec(n);
    lemma_fold_fits(n, cs);
    let t = render_fold(n, cs).1;
    let up = choose|up: Set<Candidate>| #[trigger] compose_spec(n, up) == t;
    assert(enforce_budget_spec(t) == t);
    assert(render_spec(input) == t);
    lemma_goal_change_line(n, up, c);
    let x = choose|x: Seq<char>| #[trigger] holds_line(compose_spec(n, up), "since then: "@ + x + "goal changed"@);
    assert(holds_line(render_spec(input), "since then: "@ + x + "goal changed"@));
}

} // verus!

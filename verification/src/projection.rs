//! Read projections over a reconciled workspace: the full status, its bounded
//! brief, the findings queue, the working-set attention model, transaction
//! previews and deltas. Every bounded section carries an explicit omission
//! count, so a cap is always visible.

use vstd::prelude::*;
use vstd::string::*;

use crate::model::{
    clone_opt_objective, opt_objective, Claim, ClaimView, CheckpointMarker, Evidence, EvidenceOutcome,
    EvidenceView,
    Finding, FindingSeverity, FindingView, FreshnessWithinScope, Objective, ObjectiveView,
    Observation, ObservationSelector, ScopeAssurance, Transaction, TransactionState,
    TransactionView, WorkingSetEntry,
};
use crate::sort::{stable_order, stable_sort_order};
use crate::store::vseq;
use crate::text::{char_is_whitespace, is_whitespace};

verus! {

// ---------------------------------------------------------------------------
// Counting and selecting.
/// How many elements satisfy `p`.
pub open spec fn count_where<A>(s: Seq<A>, p: spec_fn(A) -> bool) -> nat
    decreases s.len(),
{
    if s.len() == 0 {
        0
    } else {
        count_where(s.drop_last(), p) + if p(s.last()) {
            1nat
        } else {
            0nat
        }
    }
}

/// The elements that satisfy `p`, in order.
pub open spec fn select_where<A>(s: Seq<A>, p: spec_fn(A) -> bool) -> Seq<A>
    decreases s.len(),
{
    if s.len() == 0 {
        Seq::empty()
    } else if p(s.last()) {
        select_where(s.drop_last(), p).push(s.last())
    } else {
        select_where(s.drop_last(), p)
    }
}

pub proof fn lemma_count_le_len<A>(s: Seq<A>, p: spec_fn(A) -> bool)
    ensures
        count_where(s, p) <= s.len(),
    decreases s.len(),
{
    if s.len() > 0 {
        lemma_count_le_len(s.drop_last(), p);
    }
}

pub proof fn lemma_take_succ<A>(s: Seq<A>, i: int)
    requires
        0 <= i < s.len(),
    ensures
        s.take(i + 1).drop_last() == s.take(i),
        s.take(i + 1).last() == s[i],
{
    assert(s.take(i + 1).drop_last() =~= s.take(i));
}

pub open spec fn freshness_rank_spec(f: FreshnessWithinScope) -> u64 {
    match f {
        FreshnessWithinScope::Stale => 0,
        FreshnessWithinScope::Unknown => 1,
        FreshnessWithinScope::Current => 2,
    }
}

/// Order freshness so a truncating cap surfaces invalidated state first.
pub fn freshness_rank(f: FreshnessWithinScope) -> (r: u64)
    ensures
        r == freshness_rank_spec(f),
{
    match f {
        FreshnessWithinScope::Stale => 0,
        FreshnessWithinScope::Unknown => 1,
        FreshnessWithinScope::Current => 2,
    }
}

// ---------------------------------------------------------------------------
// Headlines.
/// The index of the last whitespace character, if any.
pub open spec fn last_whitespace(s: Seq<char>) -> Option<int>
    decreases s.len(),
{
    if s.len() == 0 {
        None
    } else if is_whitespace(s.last()) {
        Some(s.len() - 1)
    } else {
        last_whitespace(s.drop_last())
    }
}

/// `s` without trailing whitespace.
pub open spec fn trim_end(s: Seq<char>) -> Seq<char>
    decreases s.len(),
{
    if s.len() > 0 && is_whitespace(s.last()) {
        trim_end(s.drop_last())
    } else {
        s
    }
}

/// A statement cut to at most `max_chars` characters on a word boundary,
/// marked with a trailing ellipsis when cut; returned whole when it fits.
pub open spec fn headline_spec(statement: Seq<char>, max_chars: nat) -> Seq<char> {
    if statement.len() <= max_chars {
        statement
    } else {
        let window = statement.take(max_chars as int);
        let head = match last_whitespace(window) {
            Some(b) => window.take(b),
            None => window,
        };
        trim_end(head) + seq!['\u{2026}']
    }
}

proof fn lemma_last_whitespace_bound(s: Seq<char>)
    ensures
        last_whitespace(s) matches Some(b) ==> 0 <= b < s.len(),
    decreases s.len(),
{
    if s.len() > 0 {
        lemma_last_whitespace_bound(s.drop_last());
    }
}

proof fn lemma_trim_end_prefix(s: Seq<char>)
    ensures
        trim_end(s).len() <= s.len(),
        trim_end(s) == s.take(trim_end(s).len() as int),
    decreases s.len(),
{
    if s.len() > 0 && is_whitespace(s.last()) {
        lemma_trim_end_prefix(s.drop_last());
        assert(s.drop_last().take(trim_end(s).len() as int) =~= s.take(trim_end(s).len() as int));
    } else {
        assert(s.take(s.len() as int) =~= s);
    }
}

/// Truncate a statement to a scannable headline on a word boundary, marking
/// the cut with a trailing ellipsis; statements within budget are returned
/// whole.
pub fn claim_headline(statement: &str, max_chars: usize) -> (r: String)
    ensures
        r@ == headline_spec(statement@, max_chars as nat),
        r@.len() <= max_chars + 1,
{
    let n = statement.unicode_len();
    if n <= max_chars {
        return statement.to_owned();
    }
    let ghost window = statement@.take(max_chars as int);
    let mut k: usize = max_chars;
    assert(window.take(max_chars as int) =~= window);
    while k > 0 && !char_is_whitespace(statement.get_char(k - 1))
        invariant
            k <= max_chars,
            max_chars < statement@.len(),
            window == statement@.take(max_chars as int),
            last_whitespace(window) == last_whitespace(window.take(k as int)),
        decreases k,
    {
        proof {
            assert(window.take(k as int).last() == statement@[k - 1]);
            assert(window.take(k as int).drop_last() =~= window.take(k - 1));
        }
        k = k - 1;
    }
    let mut end: usize;
    if k == 0 {
        proof {
            assert(window.take(0) =~= Seq::<char>::empty());
        }
        end = max_chars;
    } else {
        proof {
            assert(window.take(k as int).last() == statement@[k - 1]);
            assert(last_whitespace(window) == Some(k - 1));
        }
        end = k - 1;
    }
    let ghost head = statement@.take(end as int);
    proof {
        if k == 0 {
            assert(head =~= window);
        } else {
            assert(head =~= window.take(k - 1));
        }
        assert(head.take(end as int) =~= head);
    }
    while end > 0 && char_is_whitespace(statement.get_char(end - 1))
        invariant
            end <= statement@.len(),
            head.len() <= statement@.len(),
            head == statement@.take(head.len() as int),
            end <= head.len(),
            trim_end(head) == trim_end(statement@.take(end as int)),
        decreases end,
    {
        proof {
            assert(statement@.take(end as int).last() == statement@[end - 1]);
            assert(statement@.take(end as int).drop_last() =~= statement@.take(end - 1));
        }
        end = end - 1;
    }
    proof {
        let t = statement@.take(end as int);
        if end > 0 {
            assert(t.last() == statement@[end - 1]);
        }
        assert(trim_end(t) == t);
    }
    let mut out = statement.substring_char(0, end).to_owned();
    proof {
        reveal_strlit("\u{2026}");
        assert(statement@.subrange(0, end as int) =~= statement@.take(end as int));
    }
    out.append("\u{2026}");
    out
}

// ---------------------------------------------------------------------------
// Status.
/// Hard cardinality and per-headline bounds for model-entry orientation.
pub const BRIEF_CLAIM_LIMIT: usize = 8;

pub const BRIEF_HEADLINE_MAX_CHARS: usize = 80;

pub const BRIEF_OBJECTIVE_MAX_CHARS: usize = 120;

pub struct WorkspaceStatus {
    pub objective: Option<Objective>,
    pub working_set: Vec<WorkingSetEntry>,
    pub navigation_trail: Vec<WorkingSetEntry>,
    pub observations: Vec<Observation>,
    pub claims: Vec<Claim>,
    pub superseded_claims: Vec<Claim>,
    pub evidence: Vec<Evidence>,
    pub findings: Vec<Finding>,
    pub transactions: Vec<Transaction>,
    pub checkpoints: Vec<CheckpointMarker>,
    pub observations_since_last_claim: usize,
}

/// The default orientation surface: the objective, a bounded stale-first
/// window of active claims as headlines, and counts.
pub struct BriefStatus {
    pub objective: Option<Objective>,
    pub claims: Vec<BriefClaim>,
    pub claims_omitted: usize,
    pub counts: BriefCounts,
    pub latest_checkpoint: Option<BriefCheckpoint>,
    /// Observations recorded since the most recent claim: how much was
    /// sensed without being written back.
    pub observations_since_last_claim: usize,
}

pub struct BriefClaim {
    pub id: u64,
    pub freshness: FreshnessWithinScope,
    pub scope: ScopeAssurance,
    /// The claim's thesis, truncated to a scannable headline.
    pub headline: String,
}

pub struct BriefClaimView {
    pub id: u64,
    pub freshness: FreshnessWithinScope,
    pub scope: ScopeAssurance,
    pub headline: Seq<char>,
}

impl View for BriefClaim {
    type V = BriefClaimView;

    open spec fn view(&self) -> BriefClaimView {
        BriefClaimView {
            id: self.id,
            freshness: self.freshness,
            scope: self.scope,
            headline: self.headline@,
        }
    }
}

pub struct FreshnessHistogram {
    pub current: usize,
    pub stale: usize,
    pub unknown: usize,
}

pub struct BriefCounts {
    pub active_claims: usize,
    pub superseded_claims: usize,
    pub observations: usize,
    pub open_findings: usize,
    pub open_transactions: usize,
    pub checkpoints: usize,
    pub freshness: FreshnessHistogram,
}

pub struct BriefCheckpoint {
    pub label: String,
    pub sequence: u64,
}

pub open spec fn claim_rank_key(c: ClaimView) -> (u64, u64) {
    (freshness_rank_spec(c.report.freshness_within_scope), c.id)
}

pub open spec fn claim_rank_keys(cs: Seq<ClaimView>) -> Seq<(u64, u64)> {
    cs.map_values(|c: ClaimView| claim_rank_key(c))
}

pub open spec fn brief_claim_of(c: ClaimView) -> BriefClaimView {
    BriefClaimView {
        id: c.id,
        freshness: c.report.freshness_within_scope,
        scope: c.report.scope_assurance,
        headline: headline_spec(c.statement, BRIEF_HEADLINE_MAX_CHARS as nat),
    }
}

pub open spec fn claim_has_freshness(f: FreshnessWithinScope) -> spec_fn(ClaimView) -> bool {
    |c: ClaimView| c.report.freshness_within_scope == f
}

pub open spec fn finding_is_open() -> spec_fn(FindingView) -> bool {
    |f: FindingView| f.disposition is Open
}

pub open spec fn finding_has_freshness(f: FreshnessWithinScope) -> spec_fn(FindingView) -> bool {
    |x: FindingView| x.report.freshness_within_scope == f
}

pub open spec fn transaction_is_open() -> spec_fn(TransactionView) -> bool {
    |t: TransactionView| t.state == TransactionState::Open
}

pub open spec fn min_nat(a: nat, b: nat) -> nat {
    if a <= b {
        a
    } else {
        b
    }
}

/// How many claims of a listing have each freshness.
fn claim_histogram(claims: &Vec<Claim>) -> (r: FreshnessHistogram)
    ensures
        r.current == count_where(vseq(claims@), claim_has_freshness(FreshnessWithinScope::Current)),
        r.stale == count_where(vseq(claims@), claim_has_freshness(FreshnessWithinScope::Stale)),
        r.unknown == count_where(vseq(claims@), claim_has_freshness(FreshnessWithinScope::Unknown)),
{
    let mut h = FreshnessHistogram { current: 0, stale: 0, unknown: 0 };
    let mut i: usize = 0;
    while i < claims.len()
        invariant
            i <= claims.len(),
            h.current == count_where(vseq(claims@).take(i as int), claim_has_freshness(FreshnessWithinScope::Current)),
            h.stale == count_where(vseq(claims@).take(i as int), claim_has_freshness(FreshnessWithinScope::Stale)),
            h.unknown == count_where(vseq(claims@).take(i as int), claim_has_freshness(FreshnessWithinScope::Unknown)),
            h.current + h.stale + h.unknown == i,
        decreases claims.len() - i,
    {
        proof {
            lemma_take_succ(vseq(claims@), i as int);
        }
        match claims[i].report.freshness_within_scope {
            FreshnessWithinScope::Current => h.current = h.current + 1,
            FreshnessWithinScope::Stale => h.stale = h.stale + 1,
            FreshnessWithinScope::Unknown => h.unknown = h.unknown + 1,
        }
        i = i + 1;
    }
    assert(vseq(claims@).take(claims.len() as int) =~= vseq(claims@));
    h
}

fn count_open_findings(findings: &Vec<Finding>) -> (r: usize)
    ensures
        r == count_where(vseq(findings@), finding_is_open()),
{
    let mut n: usize = 0;
    let mut i: usize = 0;
    while i < findings.len()
        invariant
            i <= findings.len(),
            n == count_where(vseq(findings@).take(i as int), finding_is_open()),
            n <= i,
        decreases findings.len() - i,
    {
        proof {
            lemma_take_succ(vseq(findings@), i as int);
        }
        if findings[i].disposition.is_open() {
            n = n + 1;
        }
        i = i + 1;
    }
    assert(vseq(findings@).take(findings.len() as int) =~= vseq(findings@));
    n
}

fn count_open_transactions(txns: &Vec<Transaction>) -> (r: usize)
    ensures
        r == count_where(vseq(txns@), transaction_is_open()),
{
    let mut n: usize = 0;
    let mut i: usize = 0;
    while i < txns.len()
        invariant
            i <= txns.len(),
            n == count_where(vseq(txns@).take(i as int), transaction_is_open()),
            n <= i,
        decreases txns.len() - i,
    {
        proof {
            lemma_take_succ(vseq(txns@), i as int);
        }
        if txns[i].state == TransactionState::Open {
            n = n + 1;
        }
        i = i + 1;
    }
    assert(vseq(txns@).take(txns.len() as int) =~= vseq(txns@));
    n
}

/// What the bounded brief of a status holds.
pub open spec fn brief_holds(st: &WorkspaceStatus, r: &BriefStatus) -> bool {
    &&& opt_objective(r.objective) == opt_objective(st.objective)
    &&& r.claims@.len() == min_nat(st.claims@.len(), BRIEF_CLAIM_LIMIT as nat)
    &&& r.claims_omitted == st.claims@.len() - min_nat(st.claims@.len(), BRIEF_CLAIM_LIMIT as nat)
    &&& exists|perm: Seq<usize>|
                #[trigger] stable_order(claim_rank_keys(vseq(st.claims@)), perm) && forall|i: int|
                    0 <= i < r.claims@.len() ==> r.claims@[i]@ == brief_claim_of(
                        vseq(st.claims@)[perm[i] as int],
                    )
    &&& r.counts.active_claims == st.claims@.len()
    &&& r.counts.superseded_claims == st.superseded_claims@.len()
    &&& r.counts.observations == st.observations@.len()
    &&& r.counts.open_findings == count_where(vseq(st.findings@), finding_is_open())
    &&& r.counts.open_transactions == count_where(vseq(st.transactions@), transaction_is_open())
    &&& r.counts.checkpoints == st.checkpoints@.len()
    &&& r.counts.freshness.current == count_where(vseq(st.claims@), claim_has_freshness(FreshnessWithinScope::Current))
    &&& r.counts.freshness.stale == count_where(vseq(st.claims@), claim_has_freshness(FreshnessWithinScope::Stale))
    &&& r.counts.freshness.unknown == count_where(vseq(st.claims@), claim_has_freshness(FreshnessWithinScope::Unknown))
    &&& st.checkpoints@.len() == 0 ==> r.latest_checkpoint is None
    &&& st.checkpoints@.len() > 0 ==> (r.latest_checkpoint matches Some(c) && c.label@
                == st.checkpoints@.last().label@ && c.sequence == st.checkpoints@.last().sequence)
    &&& r.observations_since_last_claim == st.observations_since_last_claim
}

impl WorkspaceStatus {
    /// Collapse the full audit status into the bounded orientation surface:
    /// active claims ranked stale first, then unknown, then current, each
    /// group by id, at most `BRIEF_CLAIM_LIMIT` shown with the rest counted.
    pub fn brief(&self) -> (r: BriefStatus)
        ensures
            brief_holds(self, &r),
    {
        let freshness = claim_histogram(&self.claims);
        let mut keys: Vec<(u64, u64)> = Vec::new();
        let mut i: usize = 0;
        while i < self.claims.len()
            invariant
                i <= self.claims.len(),
                keys@ == claim_rank_keys(vseq(self.claims@)).take(i as int),
            decreases self.claims.len() - i,
        {
            keys.push((freshness_rank(self.claims[i].report.freshness_within_scope), self.claims[i].id));
            proof {
                assert(claim_rank_keys(vseq(self.claims@)).take(i + 1) =~= claim_rank_keys(
                    vseq(self.claims@),
                ).take(i as int).push(claim_rank_key(self.claims@[i as int]@)));
            }
            i = i + 1;
        }
        assert(keys@ =~= claim_rank_keys(vseq(self.claims@)));
        let order = stable_sort_order(&keys);
        let shown = if self.claims.len() < BRIEF_CLAIM_LIMIT {
            self.claims.len()
        } else {
            BRIEF_CLAIM_LIMIT
        };
        let mut claims: Vec<BriefClaim> = Vec::new();
        let mut j: usize = 0;
        while j < shown
            invariant
                j <= shown,
                shown <= self.claims@.len(),
                order@.len() == self.claims@.len(),
                stable_order(claim_rank_keys(vseq(self.claims@)), order@),
                claims@.len() == j,
                forall|k: int|
                    0 <= k < j ==> #[trigger] claims@[k]@ == brief_claim_of(
                        vseq(self.claims@)[order@[k] as int],
                    ),
            decreases shown - j,
        {
            let c = &self.claims[order[j]];
            claims.push(
                BriefClaim {
                    id: c.id,
                    freshness: c.report.freshness_within_scope,
                    scope: c.report.scope_assurance,
                    headline: claim_headline(c.statement.as_str(), BRIEF_HEADLINE_MAX_CHARS),
                },
            );
            j = j + 1;
        }
        let latest_checkpoint = if self.checkpoints.len() == 0 {
            None
        } else {
            let last = &self.checkpoints[self.checkpoints.len() - 1];
            Some(BriefCheckpoint { label: last.label.clone(), sequence: last.sequence })
        };
        BriefStatus {
            objective: clone_opt_objective(&self.objective),
            claims,
            claims_omitted: self.claims.len() - shown,
            counts: BriefCounts {
                active_claims: self.claims.len(),
                superseded_claims: self.superseded_claims.len(),
                observations: self.observations.len(),
                open_findings: count_open_findings(&self.findings),
                open_transactions: count_open_transactions(&self.transactions),
                checkpoints: self.checkpoints.len(),
                freshness,
            },
            latest_checkpoint,
            observations_since_last_claim: self.observations_since_last_claim,
        }
    }
}

// ---------------------------------------------------------------------------
// Findings queue.
pub const FINDING_QUEUE_LIMIT: usize = 12;

/// One open finding as a scannable queue row.
pub struct FindingQueueEntry {
    pub id: u64,
    pub provider: String,
    pub severity: FindingSeverity,
    pub rule: Option<String>,
    pub headline: String,
    pub path: String,
    pub selector: ObservationSelector,
    pub freshness: FreshnessWithinScope,
}

pub struct FindingQueueEntryView {
    pub id: u64,
    pub provider: Seq<char>,
    pub severity: FindingSeverity,
    pub rule: Option<Seq<char>>,
    pub headline: Seq<char>,
    pub path: Seq<char>,
    pub selector: ObservationSelector,
    pub freshness: FreshnessWithinScope,
}

impl View for FindingQueueEntry {
    type V = FindingQueueEntryView;

    open spec fn view(&self) -> FindingQueueEntryView {
        FindingQueueEntryView {
            id: self.id,
            provider: self.provider@,
            severity: self.severity,
            rule: crate::model::opt_str(self.rule),
            headline: self.headline@,
            path: self.path@,
            selector: self.selector,
            freshness: self.freshness,
        }
    }
}

/// The bounded queue of open findings, most severe first.
pub struct FindingsView {
    pub open: Vec<FindingQueueEntry>,
    pub open_omitted: usize,
    pub disposed: usize,
    pub freshness: FreshnessHistogram,
}

pub open spec fn finding_rank_key(f: FindingView) -> (u64, u64) {
    (f.severity.spec_rank() as u64, f.id)
}

pub open spec fn finding_rank_keys(fs: Seq<FindingView>) -> Seq<(u64, u64)> {
    fs.map_values(|f: FindingView| finding_rank_key(f))
}

pub open spec fn queue_entry_of(f: FindingView) -> FindingQueueEntryView {
    FindingQueueEntryView {
        id: f.id,
        provider: f.provider,
        severity: f.severity,
        rule: f.rule,
        headline: headline_spec(f.message, BRIEF_HEADLINE_MAX_CHARS as nat),
        path: f.path,
        selector: f.selector,
        freshness: f.report.freshness_within_scope,
    }
}

/// The open findings, in order.
pub open spec fn open_findings(fs: Seq<FindingView>) -> Seq<FindingView> {
    select_where(fs, finding_is_open())
}

fn select_open_findings(findings: &Vec<Finding>) -> (r: Vec<&Finding>)
    ensures
        r@.map_values(|f: &Finding| f@) == open_findings(vseq(findings@)),
{
    let mut r: Vec<&Finding> = Vec::new();
    let mut i: usize = 0;
    while i < findings.len()
        invariant
            i <= findings.len(),
            r@.map_values(|f: &Finding| f@) == open_findings(vseq(findings@).take(i as int)),
        decreases findings.len() - i,
    {
        proof {
            lemma_take_succ(vseq(findings@), i as int);
        }
        if findings[i].disposition.is_open() {
            let ghost before = r@;
            r.push(&findings[i]);
            assert(r@.map_values(|f: &Finding| f@) =~= before.map_values(|f: &Finding| f@).push(
                findings@[i as int]@,
            ));
        }
        i = i + 1;
    }
    assert(vseq(findings@).take(findings.len() as int) =~= vseq(findings@));
    r
}

/// What the findings queue of a status holds.
pub open spec fn findings_view_holds(st: &WorkspaceStatus, r: &FindingsView) -> bool {
    ({
                let open = open_findings(vseq(st.findings@));
                &&& r.open@.len() == min_nat(open.len(), FINDING_QUEUE_LIMIT as nat)
                &&& r.open_omitted == open.len() - min_nat(open.len(), FINDING_QUEUE_LIMIT as nat)
                &&& r.disposed == st.findings@.len() - open.len()
                &&& exists|perm: Seq<usize>|
                    #[trigger] stable_order(finding_rank_keys(open), perm) && forall|i: int|
                        0 <= i < r.open@.len() ==> r.open@[i]@ == queue_entry_of(open[perm[i] as int])
                &&& r.freshness.current == count_where(open, finding_has_freshness(FreshnessWithinScope::Current))
                &&& r.freshness.stale == count_where(open, finding_has_freshness(FreshnessWithinScope::Stale))
                &&& r.freshness.unknown == count_where(open, finding_has_freshness(FreshnessWithinScope::Unknown))
            })
}

impl WorkspaceStatus {
    /// Project the bounded findings queue: open findings ranked most severe
    /// first and then by id, at most `FINDING_QUEUE_LIMIT` shown with the rest
    /// counted; the count of dispositioned findings; a freshness histogram
    /// over the open ones.
    pub fn findings_view(&self) -> (r: FindingsView)
        ensures
            findings_view_holds(self, &r),
    {
        let open = select_open_findings(&self.findings);
        let ghost ov = open@.map_values(|f: &Finding| f@);
        proof {
            lemma_select_len(vseq(self.findings@), finding_is_open());
        }
        let mut freshness = FreshnessHistogram { current: 0, stale: 0, unknown: 0 };
        let mut keys: Vec<(u64, u64)> = Vec::new();
        let mut i: usize = 0;
        while i < open.len()
            invariant
                i <= open.len(),
                ov == open@.map_values(|f: &Finding| f@),
                keys@ == finding_rank_keys(ov).take(i as int),
                freshness.current == count_where(ov.take(i as int), finding_has_freshness(FreshnessWithinScope::Current)),
                freshness.stale == count_where(ov.take(i as int), finding_has_freshness(FreshnessWithinScope::Stale)),
                freshness.unknown == count_where(ov.take(i as int), finding_has_freshness(FreshnessWithinScope::Unknown)),
                freshness.current + freshness.stale + freshness.unknown == i,
            decreases open.len() - i,
        {
            proof {
                lemma_take_succ(ov, i as int);
                assert(finding_rank_keys(ov).take(i + 1) =~= finding_rank_keys(ov).take(i as int).push(
                    finding_rank_key(ov[i as int]),
                ));
            }
            let f = open[i];
            keys.push((f.severity.rank() as u64, f.id));
            match f.report.freshness_within_scope {
                FreshnessWithinScope::Current => freshness.current = freshness.current + 1,
                FreshnessWithinScope::Stale => freshness.stale = freshness.stale + 1,
                FreshnessWithinScope::Unknown => freshness.unknown = freshness.unknown + 1,
            }
            i = i + 1;
        }
        assert(ov.take(open.len() as int) =~= ov);
        assert(keys@ =~= finding_rank_keys(ov));
        let order = stable_sort_order(&keys);
        let shown = if open.len() < FINDING_QUEUE_LIMIT {
            open.len()
        } else {
            FINDING_QUEUE_LIMIT
        };
        let mut entries: Vec<FindingQueueEntry> = Vec::new();
        let mut j: usize = 0;
        while j < shown
            invariant
                j <= shown,
                shown <= open@.len(),
                ov == open@.map_values(|f: &Finding| f@),
                order@.len() == open@.len(),
                stable_order(finding_rank_keys(ov), order@),
                entries@.len() == j,
                forall|k: int| 0 <= k < j ==> #[trigger] entries@[k]@ == queue_entry_of(ov[order@[k] as int]),
            decreases shown - j,
        {
            let f = open[order[j]];
            entries.push(
                FindingQueueEntry {
                    id: f.id,
                    provider: f.provider.clone(),
                    severity: f.severity,
                    rule: crate::model::clone_opt_string(&f.rule),
                    headline: claim_headline(f.message.as_str(), BRIEF_HEADLINE_MAX_CHARS),
                    path: f.path.clone(),
                    selector: f.selector,
                    freshness: f.report.freshness_within_scope,
                },
            );
            j = j + 1;
        }
        FindingsView {
            open: entries,
            open_omitted: open.len() - shown,
            disposed: self.findings.len() - open.len(),
            freshness,
        }
    }
}

pub proof fn lemma_select_len<A>(s: Seq<A>, p: spec_fn(A) -> bool)
    ensures
        select_where(s, p).len() == count_where(s, p),
        select_where(s, p).len() <= s.len(),
    decreases s.len(),
{
    if s.len() > 0 {
        lemma_select_len(s.drop_last(), p);
    }
}

// ---------------------------------------------------------------------------
// Acceptance readiness and transaction previews.
pub open spec fn state_name(s: TransactionState) -> Seq<char> {
    match s {
        TransactionState::Open => "Open"@,
        TransactionState::Accepted => "Accepted"@,
        TransactionState::Reverted => "Reverted"@,
    }
}

fn state_name_string(s: TransactionState) -> (r: String)
    ensures
        r@ == state_name(s),
{
    match s {
        TransactionState::Open => "Open".to_owned(),
        TransactionState::Accepted => "Accepted".to_owned(),
        TransactionState::Reverted => "Reverted".to_owned(),
    }
}

/// The candidate fingerprint a transaction's mutations determine.
pub open spec fn candidate_of(t: TransactionView) -> Seq<char> {
    crate::digest::hex_digest_spec(
        crate::model::candidate_material(crate::model::sort_by_path(t.mutations)),
    )
}

/// Whether some current passing evidence for `claim_id` is bound to `candidate`.
pub open spec fn has_bound_passing_evidence(
    evidence: Seq<EvidenceView>,
    claim_id: u64,
    candidate: Seq<char>,
) -> bool {
    exists|i: int|
        0 <= i < evidence.len() && (#[trigger] evidence[i]).claim_id == claim_id
            && evidence[i].outcome == EvidenceOutcome::Passed
            && evidence[i].report.freshness_within_scope == FreshnessWithinScope::Current
            && evidence[i].candidate_fingerprint == candidate
}

/// The first acceptance claim that blocks acceptance, with why: 0 not
/// active, 1 not current, 2 no current passing evidence bound to the
/// candidate.
pub open spec fn first_blocker(
    claims: Seq<ClaimView>,
    evidence: Seq<EvidenceView>,
    ids: Seq<u64>,
    candidate: Seq<char>,
) -> Option<(u64, nat)>
    decreases ids.len(),
{
    if ids.len() == 0 {
        None
    } else {
        let id = ids[0];
        match crate::store::find_first::<Claim>(claims, id) {
            None => Some((id, 0nat)),
            Some(c) => if c.report.freshness_within_scope != FreshnessWithinScope::Current {
                Some((id, 1nat))
            } else if !has_bound_passing_evidence(evidence, id, candidate) {
                Some((id, 2nat))
            } else {
                first_blocker(claims, evidence, ids.drop_first(), candidate)
            },
        }
    }
}

pub open spec fn blocker_message(id: u64, code: nat) -> Seq<char> {
    "acceptance claim "@ + crate::text::decimal(id as nat) + if code == 0 {
        " is not active"@
    } else if code == 1 {
        " is not current"@
    } else {
        " lacks current passing evidence bound to the current candidate"@
    }
}

/// Whether a transaction may be accepted against a status, and why: it must
/// be open, and every acceptance claim must be active, current, and backed by
/// current passing evidence bound to the transaction's current candidate.
pub open spec fn readiness_spec(
    claims: Seq<ClaimView>,
    evidence: Seq<EvidenceView>,
    t: TransactionView,
) -> (bool, Seq<char>) {
    if t.state != TransactionState::Open {
        (false, "transaction is "@ + state_name(t.state))
    } else {
        match first_blocker(claims, evidence, t.acceptance_claim_ids, candidate_of(t)) {
            Some((id, code)) => (false, blocker_message(id, code)),
            None => (
                true,
                "all acceptance claims current with passing evidence bound to the current candidate"@,
            ),
        }
    }
}

fn has_bound_passing_evidence_exec(evidence: &Vec<Evidence>, claim_id: u64, candidate: &String) -> (r: bool)
    ensures
        r == has_bound_passing_evidence(vseq(evidence@), claim_id, candidate@),
{
    let mut i: usize = 0;
    while i < evidence.len()
        invariant
            i <= evidence.len(),
            forall|k: int|
                0 <= k < i ==> !((#[trigger] evidence@[k]).claim_id == claim_id && evidence@[k].outcome
                    == EvidenceOutcome::Passed && evidence@[k].report.freshness_within_scope
                    == FreshnessWithinScope::Current && evidence@[k].candidate_fingerprint@
                    == candidate@),
        decreases evidence.len() - i,
    {
        let e = &evidence[i];
        if e.claim_id == claim_id && e.outcome == EvidenceOutcome::Passed
            && e.report.freshness_within_scope == FreshnessWithinScope::Current
            && e.candidate_fingerprint == *candidate {
            proof {
                assert(vseq(evidence@)[i as int] == evidence@[i as int]@);
            }
            return true;
        }
        i = i + 1;
    }
    proof {
        assert forall|k: int| 0 <= k < vseq(evidence@).len() implies !((#[trigger] vseq(evidence@)[k]).claim_id
            == claim_id && vseq(evidence@)[k].outcome == EvidenceOutcome::Passed
            && vseq(evidence@)[k].report.freshness_within_scope == FreshnessWithinScope::Current
            && vseq(evidence@)[k].candidate_fingerprint == candidate@) by {
            assert(vseq(evidence@)[k] == evidence@[k]@);
        }
    }
    false
}

fn blocker_message_string(id: u64, code: u8) -> (r: String)
    requires
        code <= 2,
    ensures
        r@ == blocker_message(id, code as nat),
{
    let mut m = "acceptance claim ".to_owned();
    crate::text::push_decimal(&mut m, id);
    if code == 0 {
        m.append(" is not active");
    } else if code == 1 {
        m.append(" is not current");
    } else {
        m.append(" lacks current passing evidence bound to the current candidate");
    }
    m
}

impl WorkspaceStatus {
    /// Whether every acceptance claim is current and backed by current
    /// passing evidence bound to the current candidate: the rule
    /// `accept_transaction` enforces, evaluated read-only.
    pub fn acceptance_readiness(&self, transaction: &Transaction) -> (r: (bool, String))
        ensures
            (r.0, r.1@) == readiness_spec(vseq(self.claims@), vseq(self.evidence@), transaction@),
    {
        if transaction.state != TransactionState::Open {
            let mut m = "transaction is ".to_owned();
            let name = state_name_string(transaction.state);
            m.append(name.as_str());
            return (false, m);
        }
        let candidate = transaction.candidate_fingerprint();
        let ghost cs = vseq(self.claims@);
        let ghost es = vseq(self.evidence@);
        let ghost ids = transaction.acceptance_claim_ids@;
        let mut i: usize = 0;
        assert(ids.skip(0) =~= ids);
        while i < transaction.acceptance_claim_ids.len()
            invariant
                i <= ids.len(),
                ids == transaction.acceptance_claim_ids@,
                cs == vseq(self.claims@),
                es == vseq(self.evidence@),
                candidate@ == candidate_of(transaction@),
                transaction.state == TransactionState::Open,
                first_blocker(cs, es, ids, candidate@) == first_blocker(cs, es, ids.skip(i as int), candidate@),
            decreases ids.len() - i,
        {
            let id = transaction.acceptance_claim_ids[i];
            proof {
                assert(ids.skip(i as int)[0] == id);
                assert(ids.skip(i as int).drop_first() =~= ids.skip(i + 1));
            }
            match crate::store::find_first_index(&self.claims, id) {
                None => {
                    return (false, blocker_message_string(id, 0));
                },
                Some(k) => {
                    if self.claims[k].report.freshness_within_scope != FreshnessWithinScope::Current {
                        return (false, blocker_message_string(id, 1));
                    }
                    if !has_bound_passing_evidence_exec(&self.evidence, id, &candidate) {
                        return (false, blocker_message_string(id, 2));
                    }
                },
            }
            i = i + 1;
        }
        (true, "all acceptance claims current with passing evidence bound to the current candidate".to_owned())
    }
}

/// A finding as it appears in a transaction preview.
pub struct PreviewFinding {
    pub id: u64,
    pub severity: FindingSeverity,
    pub freshness: FreshnessWithinScope,
    pub headline: String,
}

pub struct PreviewFindingView {
    pub id: u64,
    pub severity: FindingSeverity,
    pub freshness: FreshnessWithinScope,
    pub headline: Seq<char>,
}

impl View for PreviewFinding {
    type V = PreviewFindingView;

    open spec fn view(&self) -> PreviewFindingView {
        PreviewFindingView {
            id: self.id,
            severity: self.severity,
            freshness: self.freshness,
            headline: self.headline@,
        }
    }
}

/// One evidence record bearing on a transaction's acceptance.
pub struct PreviewEvidence {
    pub id: u64,
    pub claim_id: u64,
    pub check_name: String,
    pub outcome: EvidenceOutcome,
    pub freshness: FreshnessWithinScope,
}

pub struct PreviewEvidenceView {
    pub id: u64,
    pub claim_id: u64,
    pub check_name: Seq<char>,
    pub outcome: EvidenceOutcome,
    pub freshness: FreshnessWithinScope,
}

impl View for PreviewEvidence {
    type V = PreviewEvidenceView;

    open spec fn view(&self) -> PreviewEvidenceView {
        PreviewEvidenceView {
            id: self.id,
            claim_id: self.claim_id,
            check_name: self.check_name@,
            outcome: self.outcome,
            freshness: self.freshness,
        }
    }
}

/// A review-before-accept surface for one transaction.
pub struct TransactionPreview {
    pub id: u64,
    pub intent: Option<String>,
    pub state: TransactionState,
    pub base_revision: String,
    /// Distinct paths the transaction's mutations touch, in first-touch order.
    pub affected_locations: Vec<String>,
    pub mutation_count: usize,
    pub acceptance_claim_ids: Vec<u64>,
    pub associated_findings: Vec<PreviewFinding>,
    pub evidence: Vec<PreviewEvidence>,
    pub residual_risks: Vec<String>,
    pub ready_to_accept: bool,
    pub readiness_reason: String,
}

/// Distinct paths in first-touch order.
pub open spec fn first_touch(paths: Seq<Seq<char>>) -> Seq<Seq<char>>
    decreases paths.len(),
{
    if paths.len() == 0 {
        Seq::empty()
    } else {
        let p = first_touch(paths.drop_last());
        if p.contains(paths.last()) {
            p
        } else {
            p.push(paths.last())
        }
    }
}

pub open spec fn preview_finding_of(f: FindingView) -> PreviewFindingView {
    PreviewFindingView {
        id: f.id,
        severity: f.severity,
        freshness: f.report.freshness_within_scope,
        headline: headline_spec(f.message, BRIEF_HEADLINE_MAX_CHARS as nat),
    }
}

/// The findings an id list names that exist, in id-list order.
pub open spec fn preview_findings(fs: Seq<FindingView>, ids: Seq<u64>) -> Seq<PreviewFindingView>
    decreases ids.len(),
{
    if ids.len() == 0 {
        Seq::empty()
    } else {
        let p = preview_findings(fs, ids.drop_last());
        match crate::store::find_first::<Finding>(fs, ids.last()) {
            Some(f) => p.push(preview_finding_of(f)),
            None => p,
        }
    }
}

pub open spec fn preview_evidence_of(e: EvidenceView) -> PreviewEvidenceView {
    PreviewEvidenceView {
        id: e.id,
        claim_id: e.claim_id,
        check_name: e.check_name,
        outcome: e.outcome,
        freshness: e.report.freshness_within_scope,
    }
}

/// The evidence recorded for transaction `id`, in order.
pub open spec fn preview_evidence(es: Seq<EvidenceView>, id: u64) -> Seq<PreviewEvidenceView>
    decreases es.len(),
{
    if es.len() == 0 {
        Seq::empty()
    } else {
        let p = preview_evidence(es.drop_last(), id);
        if es.last().transaction_id == id {
            p.push(preview_evidence_of(es.last()))
        } else {
            p
        }
    }
}

fn affected_locations(t: &Transaction) -> (r: Vec<String>)
    ensures
        crate::text::strings_view(r@) == first_touch(
            crate::model::mutations_view(t.mutations@).map_values(|m: crate::model::MutationView| m.path),
        ),
{
    let ghost paths = crate::model::mutations_view(t.mutations@).map_values(
        |m: crate::model::MutationView| m.path,
    );
    let mut r: Vec<String> = Vec::new();
    let mut i: usize = 0;
    assert(crate::text::strings_view(r@) =~= first_touch(paths.take(0)));
    while i < t.mutations.len()
        invariant
            i <= t.mutations.len(),
            paths == crate::model::mutations_view(t.mutations@).map_values(
                |m: crate::model::MutationView| m.path,
            ),
            crate::text::strings_view(r@) == first_touch(paths.take(i as int)),
        decreases t.mutations.len() - i,
    {
        proof {
            lemma_take_succ(paths, i as int);
        }
        let p = &t.mutations[i].path;
        let mut found = false;
        let mut j: usize = 0;
        while j < r.len()
            invariant
                j <= r.len(),
                !found ==> forall|k: int| 0 <= k < j ==> r@[k]@ != p@,
                found ==> crate::text::strings_view(r@).contains(p@),
            decreases r.len() - j,
        {
            if r[j] == *p {
                found = true;
                assert(crate::text::strings_view(r@)[j as int] == p@);
            }
            j = j + 1;
        }
        if !found {
            let ghost before = crate::text::strings_view(r@);
            assert(!before.contains(p@)) by {
                if before.contains(p@) {
                    let k = choose|k: int| 0 <= k < before.len() && before[k] == p@;
                    assert(r@[k]@ == before[k]);
                }
            }
            r.push(p.clone());
            assert(crate::text::strings_view(r@) =~= before.push(p@));
        }
        i = i + 1;
    }
    assert(paths.take(t.mutations.len() as int) =~= paths);
    r
}

/// What the preview of one transaction of a status holds, given the drift
/// the caller reported.
pub open spec fn preview_holds(
    st: &WorkspaceStatus,
    transaction_id: u64,
    drift: Option<Seq<char>>,
    r: &Option<TransactionPreview>,
) -> bool {
    match crate::store::find_first::<Transaction>(vseq(st.transactions@), transaction_id) {
                None => r is None,
                Some(t) => r matches Some(p) && p.id == t.id && crate::model::opt_str(p.intent)
                    == t.intent && p.state == t.state && p.base_revision@ == t.base_revision
                    && crate::text::strings_view(p.affected_locations@) == first_touch(
                    t.mutations.map_values(|m: crate::model::MutationView| m.path),
                ) && p.mutation_count == t.mutations.len() && p.acceptance_claim_ids@
                    == t.acceptance_claim_ids && p.associated_findings@.map_values(
                    |x: PreviewFinding| x@,
                ) == preview_findings(vseq(st.findings@), t.finding_ids)
                    && p.evidence@.map_values(|x: PreviewEvidence| x@) == preview_evidence(
                    vseq(st.evidence@),
                    transaction_id,
                ) && crate::text::strings_view(p.residual_risks@) == t.residual_risks && (
                p.ready_to_accept,
                p.readiness_reason@,
                ) == match drift {
                    Some(d) => if t.state == TransactionState::Open {
                        (false, d)
                    } else {
                        readiness_spec(vseq(st.claims@), vseq(st.evidence@), t)
                    },
                    None => readiness_spec(vseq(st.claims@), vseq(st.evidence@), t),
                },
            }
}

impl WorkspaceStatus {
    /// Project a review surface for one transaction, or `None` if the status
    /// holds no transaction with that id. Drift of the owned bytes, when the
    /// caller reports it for an open transaction, blocks readiness ahead of
    /// the acceptance rule.
    pub fn transaction_preview(&self, transaction_id: u64, candidate_drift: Option<String>) -> (r: Option<
        TransactionPreview,
    >)
        ensures
            preview_holds(
                self,
                transaction_id,
                match candidate_drift {
                    Some(d) => Some(d@),
                    None => None,
                },
                &r,
            ),
    {
        let ti = match crate::store::find_first_index(&self.transactions, transaction_id) {
            None => {
                return None;
            },
            Some(ti) => ti,
        };
        let t = &self.transactions[ti];
        let affected = affected_locations(t);
        let mut findings: Vec<PreviewFinding> = Vec::new();
        let mut i: usize = 0;
        assert(t.finding_ids@.take(0) =~= Seq::<u64>::empty());
        assert(findings@.map_values(|x: PreviewFinding| x@) =~= Seq::<PreviewFindingView>::empty());
        while i < t.finding_ids.len()
            invariant
                i <= t.finding_ids.len(),
                findings@.map_values(|x: PreviewFinding| x@) == preview_findings(
                    vseq(self.findings@),
                    t.finding_ids@.take(i as int),
                ),
            decreases t.finding_ids.len() - i,
        {
            proof {
                lemma_take_succ(t.finding_ids@, i as int);
            }
            let ghost before = findings@.map_values(|x: PreviewFinding| x@);
            match crate::store::find_first_index(&self.findings, t.finding_ids[i]) {
                Some(k) => {
                    let f = &self.findings[k];
                    findings.push(
                        PreviewFinding {
                            id: f.id,
                            severity: f.severity,
                            freshness: f.report.freshness_within_scope,
                            headline: claim_headline(f.message.as_str(), BRIEF_HEADLINE_MAX_CHARS),
                        },
                    );
                    assert(findings@.map_values(|x: PreviewFinding| x@) =~= before.push(
                        preview_finding_of(f@),
                    ));
                },
                None => {},
            }
            i = i + 1;
        }
        assert(t.finding_ids@.take(t.finding_ids.len() as int) =~= t.finding_ids@);
        let mut evidence: Vec<PreviewEvidence> = Vec::new();
        let mut j: usize = 0;
        assert(vseq(self.evidence@).take(0) =~= Seq::<EvidenceView>::empty());
        assert(evidence@.map_values(|x: PreviewEvidence| x@) =~= Seq::<PreviewEvidenceView>::empty());
        while j < self.evidence.len()
            invariant
                j <= self.evidence.len(),
                evidence@.map_values(|x: PreviewEvidence| x@) == preview_evidence(
                    vseq(self.evidence@).take(j as int),
                    transaction_id,
                ),
            decreases self.evidence.len() - j,
        {
            proof {
                lemma_take_succ(vseq(self.evidence@), j as int);
            }
            let e = &self.evidence[j];
            if e.transaction_id == transaction_id {
                let ghost before = evidence@.map_values(|x: PreviewEvidence| x@);
                evidence.push(
                    PreviewEvidence {
                        id: e.id,
                        claim_id: e.claim_id,
                        check_name: e.check_name.clone(),
                        outcome: e.outcome,
                        freshness: e.report.freshness_within_scope,
                    },
                );
                assert(evidence@.map_values(|x: PreviewEvidence| x@) =~= before.push(
                    preview_evidence_of(e@),
                ));
            }
            j = j + 1;
        }
        assert(vseq(self.evidence@).take(self.evidence.len() as int) =~= vseq(self.evidence@));
        let (ready_to_accept, readiness_reason) = match candidate_drift {
            Some(drift) => {
                if t.state == TransactionState::Open {
                    (false, drift)
                } else {
                    self.acceptance_readiness(t)
                }
            },
            None => self.acceptance_readiness(t),
        };
        let ids = crate::state::clone_u64s(&t.acceptance_claim_ids);
        Some(
            TransactionPreview {
                id: t.id,
                intent: crate::model::clone_opt_string(&t.intent),
                state: t.state,
                base_revision: t.base_revision.clone(),
                affected_locations: affected,
                mutation_count: t.mutations.len(),
                acceptance_claim_ids: ids,
                associated_findings: findings,
                evidence,
                residual_risks: crate::text::clone_strings(&t.residual_risks),
                ready_to_accept,
                readiness_reason,
            },
        )
    }
}

// ---------------------------------------------------------------------------
// Deltas.
pub const BRIEF_DELTA_ID_LIMIT: usize = 16;

/// The objective in force shifted between the checkpoint and now.
pub struct ObjectiveChange {
    pub before: Option<Objective>,
    pub after: Option<Objective>,
}

/// What changed since a checkpoint, derived by projecting the log up to the
/// checkpoint and to now and diffing the two states.
pub struct DeltaStatus {
    pub checkpoint: CheckpointMarker,
    pub objective_change: Option<ObjectiveChange>,
    pub claims_recorded: Vec<Claim>,
    pub claims_superseded: Vec<Claim>,
    pub claims_staled: Vec<Claim>,
    pub observations_recorded: Vec<Observation>,
    pub transactions_opened: Vec<Transaction>,
    pub transactions_closed: Vec<Transaction>,
}

/// The bounded delta: which kinds of change occurred and the most recent ids.
pub struct BriefDeltaStatus {
    pub checkpoint: BriefCheckpoint,
    pub objective_change: Option<BriefObjectiveChange>,
    pub claims_recorded: BriefIdSet,
    pub claims_superseded: BriefIdSet,
    pub claims_staled: BriefIdSet,
    pub observations_recorded: BriefIdSet,
    pub transactions_opened: BriefIdSet,
    pub transactions_closed: BriefIdSet,
}

pub struct BriefObjectiveChange {
    pub before: Option<String>,
    pub after: Option<String>,
}

pub struct BriefIdSet {
    pub total: usize,
    pub recent_ids: Vec<u64>,
    pub omitted: usize,
}

/// A set of ids summarized: how many, and the last `BRIEF_DELTA_ID_LIMIT`.
pub open spec fn brief_id_set(ids: Seq<u64>, total: usize, recent: Seq<u64>, omitted: usize) -> bool {
    &&& total == ids.len()
    &&& omitted == ids.len() - min_nat(ids.len(), BRIEF_DELTA_ID_LIMIT as nat)
    &&& recent == ids.skip(omitted as int)
}

impl BriefIdSet {
    pub fn from_ids(ids: Vec<u64>) -> (r: Self)
        ensures
            brief_id_set(ids@, r.total, r.recent_ids@, r.omitted),
    {
        let omitted = if ids.len() > BRIEF_DELTA_ID_LIMIT {
            ids.len() - BRIEF_DELTA_ID_LIMIT
        } else {
            0
        };
        let mut recent: Vec<u64> = Vec::new();
        let mut i: usize = omitted;
        while i < ids.len()
            invariant
                omitted <= i <= ids.len(),
                recent@ == ids@.subrange(omitted as int, i as int),
            decreases ids.len() - i,
        {
            recent.push(ids[i]);
            assert(ids@.subrange(omitted as int, i + 1) =~= ids@.subrange(omitted as int, i as int).push(ids@[i as int]));
            i = i + 1;
        }
        assert(recent@ =~= ids@.skip(omitted as int));
        BriefIdSet { total: ids.len(), recent_ids: recent, omitted }
    }
}

pub open spec fn claim_ids(cs: Seq<Claim>) -> Seq<u64> {
    cs.map_values(|c: Claim| c.id)
}

fn ids_of_claims(cs: &Vec<Claim>) -> (r: Vec<u64>)
    ensures
        r@ == claim_ids(cs@),
{
    let mut r: Vec<u64> = Vec::new();
    let mut i: usize = 0;
    while i < cs.len()
        invariant
            i <= cs.len(),
            r@ == claim_ids(cs@).take(i as int),
        decreases cs.len() - i,
    {
        r.push(cs[i].id);
        assert(claim_ids(cs@).take(i + 1) =~= claim_ids(cs@).take(i as int).push(cs@[i as int].id));
        i = i + 1;
    }
    assert(claim_ids(cs@).take(cs.len() as int) =~= claim_ids(cs@));
    r
}

fn ids_of_observations(os: &Vec<Observation>) -> (r: Vec<u64>)
    ensures
        r@ == os@.map_values(|o: Observation| o.id),
{
    let mut r: Vec<u64> = Vec::new();
    let mut i: usize = 0;
    while i < os.len()
        invariant
            i <= os.len(),
            r@ == os@.map_values(|o: Observation| o.id).take(i as int),
        decreases os.len() - i,
    {
        r.push(os[i].id);
        assert(os@.map_values(|o: Observation| o.id).take(i + 1) =~= os@.map_values(
            |o: Observation| o.id,
        ).take(i as int).push(os@[i as int].id));
        i = i + 1;
    }
    assert(os@.map_values(|o: Observation| o.id).take(os.len() as int) =~= os@.map_values(
        |o: Observation| o.id,
    ));
    r
}

fn ids_of_transactions(ts: &Vec<Transaction>) -> (r: Vec<u64>)
    ensures
        r@ == ts@.map_values(|t: Transaction| t.id),
{
    let mut r: Vec<u64> = Vec::new();
    let mut i: usize = 0;
    while i < ts.len()
        invariant
            i <= ts.len(),
            r@ == ts@.map_values(|t: Transaction| t.id).take(i as int),
        decreases ts.len() - i,
    {
        r.push(ts[i].id);
        assert(ts@.map_values(|t: Transaction| t.id).take(i + 1) =~= ts@.map_values(
            |t: Transaction| t.id,
        ).take(i as int).push(ts@[i as int].id));
        i = i + 1;
    }
    assert(ts@.map_values(|t: Transaction| t.id).take(ts.len() as int) =~= ts@.map_values(
        |t: Transaction| t.id,
    ));
    r
}

pub open spec fn objective_headline(o: Option<ObjectiveView>) -> Option<Seq<char>> {
    match o {
        Some(x) => Some(headline_spec(x.intent, BRIEF_OBJECTIVE_MAX_CHARS as nat)),
        None => None,
    }
}

pub fn objective_headline_exec(o: &Option<Objective>) -> (r: Option<String>)
    ensures
        crate::model::opt_str(r) == objective_headline(opt_objective(*o)),
{
    match o {
        Some(x) => Some(claim_headline(x.intent.as_str(), BRIEF_OBJECTIVE_MAX_CHARS)),
        None => None,
    }
}

/// What the bounded form of a delta holds.
pub open spec fn delta_brief_holds(d: &DeltaStatus, r: &BriefDeltaStatus) -> bool {
    &&& r.checkpoint.label@ == d.checkpoint.label@
    &&& r.checkpoint.sequence == d.checkpoint.sequence
    &&& match d.objective_change {
                None => r.objective_change is None,
                Some(c) => r.objective_change matches Some(b) && crate::model::opt_str(b.before)
                    == objective_headline(opt_objective(c.before)) && crate::model::opt_str(b.after)
                    == objective_headline(opt_objective(c.after)),
            }
    &&& brief_id_set(claim_ids(d.claims_recorded@), r.claims_recorded.total, r.claims_recorded.recent_ids@, r.claims_recorded.omitted)
    &&& brief_id_set(claim_ids(d.claims_superseded@), r.claims_superseded.total, r.claims_superseded.recent_ids@, r.claims_superseded.omitted)
    &&& brief_id_set(claim_ids(d.claims_staled@), r.claims_staled.total, r.claims_staled.recent_ids@, r.claims_staled.omitted)
    &&& brief_id_set(d.observations_recorded@.map_values(|o: Observation| o.id), r.observations_recorded.total, r.observations_recorded.recent_ids@, r.observations_recorded.omitted)
    &&& brief_id_set(d.transactions_opened@.map_values(|t: Transaction| t.id), r.transactions_opened.total, r.transactions_opened.recent_ids@, r.transactions_opened.omitted)
    &&& brief_id_set(d.transactions_closed@.map_values(|t: Transaction| t.id), r.transactions_closed.total, r.transactions_closed.recent_ids@, r.transactions_closed.omitted)
}

impl DeltaStatus {
    /// The bounded form of a delta: ids of each kind of change, capped to the
    /// most recent with an omission count, and objective headlines.
    pub fn brief(&self) -> (r: BriefDeltaStatus)
        ensures
            delta_brief_holds(self, &r),
    {
        let objective_change = match &self.objective_change {
            None => None,
            Some(c) => Some(
                BriefObjectiveChange {
                    before: objective_headline_exec(&c.before),
                    after: objective_headline_exec(&c.after),
                },
            ),
        };
        BriefDeltaStatus {
            checkpoint: BriefCheckpoint {
                label: self.checkpoint.label.clone(),
                sequence: self.checkpoint.sequence,
            },
            objective_change,
            claims_recorded: BriefIdSet::from_ids(ids_of_claims(&self.claims_recorded)),
            claims_superseded: BriefIdSet::from_ids(ids_of_claims(&self.claims_superseded)),
            claims_staled: BriefIdSet::from_ids(ids_of_claims(&self.claims_staled)),
            observations_recorded: BriefIdSet::from_ids(ids_of_observations(&self.observations_recorded)),
            transactions_opened: BriefIdSet::from_ids(ids_of_transactions(&self.transactions_opened)),
            transactions_closed: BriefIdSet::from_ids(ids_of_transactions(&self.transactions_closed)),
        }
    }
}

} // verus!

//! The workspace: an append-only log of event records and the projection it
//! replays to. Every operation validates what it is asked, appends the
//! events that record it, and answers from the projection. The state is
//! always the replay of the log, so persisting the log is persisting the
//! workspace.

use vstd::prelude::*;
use vstd::string::*;

use crate::error::{error_is, ReplayError, WorkspaceError};
use crate::event::{Event, EventRecord, EVENT_SCHEMA_VERSION};
use crate::locate::{join, join_path};
use crate::model::{
    Claim, ClaimView, Evidence, EvidenceView, Finding, FindingDisposition, FindingView, Objective,
    Observation, ObservationView, Transaction, TransactionState, TransactionView, WorkingSetEntry,
};
use crate::state::{
    empty_projection, projection_of, replay, spec_apply, spec_replay, view_wf, Projection,
    ProjectionView,
};
use crate::store::{find_index, to_map, vseq, KeyOf};
use crate::text::{is_blank, is_blank_spec};

verus! {

pub const EVENT_LOG_NAME: &'static str = "events.jsonl";

pub struct Workspace {
    repository_root: String,
    workspace_root: String,
    log: Vec<EventRecord>,
    state: Projection,
    event_log_reads: usize,
}

/// Replaying a log extended by one record applies that record to the
/// replay of the log.
pub proof fn lemma_replay_push(p: ProjectionView, records: Seq<EventRecord>, r: EventRecord)
    ensures
        spec_replay(p, records.push(r), None) == match spec_replay(p, records, None) {
            Ok(q) => spec_apply(q, r),
            Err(e) => Err(e),
        },
    decreases records.len(),
{
    if records.len() == 0 {
        assert(records.push(r).drop_first() =~= Seq::<EventRecord>::empty());
        assert(records.push(r)[0] == r);
        match spec_apply(p, r) {
            Ok(q) => {
                assert(spec_replay(q, Seq::<EventRecord>::empty(), None) == Ok::<ProjectionView, ReplayError>(q));
            },
            Err(_) => {},
        }
    } else {
        assert(records.push(r)[0] == records[0]);
        assert(records.push(r).drop_first() =~= records.drop_first().push(r));
        match spec_apply(p, records[0]) {
            Ok(q) => {
                lemma_replay_push(q, records.drop_first(), r);
            },
            Err(_) => {},
        }
    }
}

/// `path` is `dir` or lies under it.
pub open spec fn lies_within(path: Seq<char>, dir: Seq<char>) -> bool {
    path == dir || (path.len() > dir.len() && path.take(dir.len() as int) == dir && path[dir.len() as int]
        == '/')
}

/// The refusal of a workspace directory inside the repository.
pub open spec fn inside_repository_message(root: Seq<char>) -> Seq<char> {
    "workspace "@ + root + " must lie outside the repository"@
}

fn lies_within_exec(path: &str, dir: &str) -> (r: bool)
    ensures
        r == lies_within(path@, dir@),
{
    let p = crate::text::chars_of(path);
    let d = crate::text::chars_of(dir);
    if p.len() < d.len() {
        return false;
    }
    let mut i: usize = 0;
    while i < d.len()
        invariant
            i <= d@.len() <= p@.len(),
            p@ == path@,
            d@ == dir@,
            forall|j: int| 0 <= j < i ==> p@[j] == d@[j],
        decreases d@.len() - i,
    {
        if p[i] != d[i] {
            assert(p@.take(d@.len() as int)[i as int] != d@[i as int]);
            assert(p@ != d@);
            return false;
        }
        i = i + 1;
    }
    assert(p@.take(d@.len() as int) =~= d@);
    if p.len() == d.len() {
        assert(p@ =~= d@);
        true
    } else {
        p[d.len()] == '/'
    }
}

/// The record an append of `event` to a state writes.
pub open spec fn next_record(p: ProjectionView, event: Event) -> EventRecord {
    EventRecord { schema_version: EVENT_SCHEMA_VERSION, sequence: p.next_sequence, event }
}

/// `old` is a prefix of `new`: the log only grows.
pub open spec fn extends(old: Seq<EventRecord>, new: Seq<EventRecord>) -> bool {
    old.len() <= new.len() && forall|i: int| 0 <= i < old.len() ==> #[trigger] new[i] == old[i]
}

impl Workspace {
    /// The records of the log, oldest first.
    pub closed spec fn records(&self) -> Seq<EventRecord> {
        self.log@
    }

    /// The projection of the log.
    pub closed spec fn projection(&self) -> ProjectionView {
        self.state@
    }

    pub closed spec fn root(&self) -> Seq<char> {
        self.workspace_root@
    }

    pub closed spec fn repository(&self) -> Seq<char> {
        self.repository_root@
    }

    pub closed spec fn reads(&self) -> nat {
        self.event_log_reads as nat
    }

    /// The state is the replay of the log.
    pub closed spec fn wf(&self) -> bool {
        &&& self.state.wf()
        &&& projection_of(self.log@) == Ok::<ProjectionView, ReplayError>(self.state@)
    }

    /// A well-formed workspace's projection is the replay of its records.
    pub proof fn lemma_wf(&self)
        requires
            self.wf(),
        ensures
            projection_of(self.records()) == Ok::<ProjectionView, ReplayError>(self.projection()),
            view_wf(self.projection()),
    {
    }

    /// The sequence counter of a well-formed workspace is the number of its
    /// records.
    pub proof fn lemma_sequence_is_length(&self)
        requires
            self.wf(),
        ensures
            self.projection().next_sequence == self.records().len(),
    {
        crate::state::lemma_replay_counts(empty_projection(), self.records());
    }

    /// Two workspaces with the same log hold the same projection.
    pub proof fn lemma_same_records(&self, other: &Workspace)
        requires
            self.wf(),
            other.wf(),
            self.records() == other.records(),
        ensures
            self.projection() == other.projection(),
    {
    }

    /// A workspace whose log is another's plus one record holds that
    /// record applied to the other's projection.
    pub proof fn lemma_one_more(&self, other: &Workspace, r: EventRecord)
        requires
            self.wf(),
            other.wf(),
            other.records() == self.records().push(r),
        ensures
            spec_apply(self.projection(), r) == Ok::<ProjectionView, ReplayError>(other.projection()),
    {
        lemma_replay_push(empty_projection(), self.log@, r);
    }

    /// Open a workspace over a log, replaying it. A workspace directory
    /// inside the repository is refused: its state would fork from the one
    /// the repository's identity resolves to. A log that does not replay is
    /// refused with the error its first bad record raises.
    pub fn open(repository_root: String, workspace_root: String, log: Vec<EventRecord>) -> (r: Result<
        Workspace,
        WorkspaceError,
    >)
        ensures
            lies_within(workspace_root@, repository_root@) ==> (r matches Err(WorkspaceError::InvalidPath(m))
                && m@ == inside_repository_message(workspace_root@)),
            !lies_within(workspace_root@, repository_root@) ==> match projection_of(log@) {
                Ok(q) => r matches Ok(w) && w.wf() && w.records() == log@ && w.projection() == q
                    && w.root() == workspace_root@ && w.repository() == repository_root@ && w.reads()
                    == 0,
                Err(k) => r matches Err(e) && error_is(e, k),
            },
    {
        if lies_within_exec(workspace_root.as_str(), repository_root.as_str()) {
            let mut m = crate::error::msg("workspace ");
            m.append(workspace_root.as_str());
            m.append(" must lie outside the repository");
            return Err(WorkspaceError::InvalidPath(m));
        }
        match replay(&log, None) {
            Ok(state) => Ok(
                Workspace { repository_root, workspace_root, log, state, event_log_reads: 0 },
            ),
            Err(e) => Err(e),
        }
    }

    /// How many times this handle has replayed its log since it was opened.
    pub fn event_log_reads(&self) -> (r: usize)
        ensures
            r == self.reads(),
    {
        self.event_log_reads
    }

    /// Where the log is persisted.
    pub fn event_log_path(&self) -> (r: String)
        ensures
            r@ == join_path(self.root(), EVENT_LOG_NAME@),
    {
        join(self.workspace_root.as_str(), EVENT_LOG_NAME)
    }

    /// The log's records, oldest first.
    pub fn log(&self) -> (r: &Vec<EventRecord>)
        ensures
            r@ == self.records(),
    {
        &self.log
    }

    pub fn repository_root(&self) -> (r: &str)
        ensures
            r@ == self.repository(),
    {
        self.repository_root.as_str()
    }

    /// Append one event: it takes effect on the projection and its record
    /// joins the log, or, when the projection refuses it, nothing changes.
    pub(crate) fn append(&mut self, event: Event) -> (r: Result<(), WorkspaceError>)
        requires
            old(self).wf(),
        ensures
            final(self).wf(),
            final(self).root() == old(self).root(),
            final(self).repository() == old(self).repository(),
            final(self).reads() == old(self).reads(),
            match spec_apply(old(self).projection(), next_record(old(self).projection(), event)) {
                Ok(q) => r is Ok && final(self).records() == old(self).records().push(
                    next_record(old(self).projection(), event),
                ) && final(self).projection() == q,
                Err(k) => r matches Err(e) && error_is(e, k) && final(self).records() == old(self).records() && final(self).projection() == old(self).projection(),
            },
    {
        let ghost p = self.state@;
        let record = EventRecord {
            schema_version: EVENT_SCHEMA_VERSION,
            sequence: self.state.next_sequence,
            event,
        };
        let copy = record.duplicate();
        proof {
            crate::state::lemma_same_record_same_outcome(p, copy, record);
            lemma_replay_push(empty_projection(), self.log@, record);
        }
        match self.state.apply(copy) {
            Ok(()) => {
                self.log.push(record);
                Ok(())
            },
            Err(e) => {
                match replay(&self.log, None) {
                    Ok(state) => {
                        self.state = state;
                    },
                    Err(_) => {},
                }
                Err(e)
            },
        }
    }
}

/// A freshness verdict recomputed from what the repository holds now.
pub struct Verdict {
    pub freshness: crate::model::FreshnessWithinScope,
    pub reason: String,
    pub reconciliation_fingerprint: String,
}

/// The disposition's actor and rationale, when it names them.
pub open spec fn disposition_parts(d: crate::model::FindingDispositionView) -> Option<(Seq<char>, Seq<char>)> {
    match d {
        crate::model::FindingDispositionView::Open => None,
        crate::model::FindingDispositionView::Resolved { actor, rationale } => Some((actor, rationale)),
        crate::model::FindingDispositionView::Deferred { actor, rationale } => Some((actor, rationale)),
        crate::model::FindingDispositionView::Suppressed { actor, rationale } => Some((actor, rationale)),
        crate::model::FindingDispositionView::FalsePositive { actor, rationale } => Some((actor, rationale)),
    }
}

impl Workspace {
    pub(crate) fn observation_at(&self, id: u64) -> (r: Option<Observation>)
        requires
            self.wf(),
        ensures
            match r {
                Some(o) => self.projection().observations.contains_key(id) && o@
                    == self.projection().observations[id],
                None => !self.projection().observations.contains_key(id),
            },
    {
        match find_index(&self.state.observations, id) {
            Some(i) => Some(self.state.observations[i].clone()),
            None => None,
        }
    }

    pub(crate) fn claim_at(&self, id: u64) -> (r: Option<Claim>)
        requires
            self.wf(),
        ensures
            match r {
                Some(c) => self.projection().claims.contains_key(id) && c@ == self.projection().claims[id],
                None => !self.projection().claims.contains_key(id),
            },
    {
        match find_index(&self.state.claims, id) {
            Some(i) => Some(self.state.claims[i].clone()),
            None => None,
        }
    }

    fn evidence_at(&self, id: u64) -> (r: Option<Evidence>)
        requires
            self.wf(),
        ensures
            match r {
                Some(e) => self.projection().evidence.contains_key(id) && e@ == self.projection().evidence[id],
                None => !self.projection().evidence.contains_key(id),
            },
    {
        match find_index(&self.state.evidence, id) {
            Some(i) => Some(self.state.evidence[i].clone()),
            None => None,
        }
    }

    pub(crate) fn finding_at(&self, id: u64) -> (r: Option<Finding>)
        requires
            self.wf(),
        ensures
            match r {
                Some(f) => self.projection().findings.contains_key(id) && f@ == self.projection().findings[id],
                None => !self.projection().findings.contains_key(id),
            },
    {
        match find_index(&self.state.findings, id) {
            Some(i) => Some(self.state.findings[i].clone()),
            None => None,
        }
    }

    pub(crate) fn transaction_at(&self, id: u64) -> (r: Option<Transaction>)
        requires
            self.wf(),
        ensures
            match r {
                Some(t) => self.projection().transactions.contains_key(id) && t@
                    == self.projection().transactions[id],
                None => !self.projection().transactions.contains_key(id),
            },
    {
        match find_index(&self.state.transactions, id) {
            Some(i) => Some(self.state.transactions[i].clone()),
            None => None,
        }
    }

    pub(crate) fn focus_at(&self, id: u64) -> (r: Option<WorkingSetEntry>)
        requires
            self.wf(),
        ensures
            match r {
                Some(e) => self.projection().working_set.contains_key(id) && e@
                    == self.projection().working_set[id],
                None => !self.projection().working_set.contains_key(id),
            },
    {
        match find_index(&self.state.working_set, id) {
            Some(i) => Some(self.state.working_set[i].clone()),
            None => None,
        }
    }

    /// Bind the objective the current work serves.
    pub fn bind_objective(&mut self, intent: String, external_reference: Option<String>) -> (r: Result<
        Objective,
        WorkspaceError,
    >)
        requires
            old(self).wf(),
        ensures
            final(self).wf(),
            is_blank_spec(intent@) ==> final(self).records() == old(self).records() && (r matches Err(
                WorkspaceError::InvalidObjective(m),
            ) && m@ == "intent must not be empty"@),
            !is_blank_spec(intent@) ==> match r {
                Ok(o) => final(self).records() == old(self).records().push(
                    next_record(
                        old(self).projection(),
                        Event::ObjectiveBound { intent, external_reference },
                    ),
                ) && final(self).projection().objective == Some(o@),
                Err(e) => e is CorruptLog && final(self).records() == old(self).records()
                    && old(self).projection().next_sequence == u64::MAX,
            },
    {
        if is_blank(intent.as_str()) {
            return Err(WorkspaceError::InvalidObjective("intent must not be empty".to_owned()));
        }
        let objective = Objective {
            intent: intent.clone(),
            external_reference: crate::model::clone_opt_string(&external_reference),
        };
        match self.append(Event::ObjectiveBound { intent, external_reference }) {
            Ok(()) => Ok(objective),
            Err(e) => Err(e),
        }
    }

    /// Focus an observation, naming why it holds attention.
    pub fn focus_observation(&mut self, observation_id: u64, reason: String) -> (r: Result<
        WorkingSetEntry,
        WorkspaceError,
    >)
        requires
            old(self).wf(),
        ensures
            final(self).wf(),
            is_blank_spec(reason@) ==> final(self).records() == old(self).records() && (r matches Err(
                WorkspaceError::InvalidWorkingSet(m),
            ) && m@ == "focus reason must not be empty"@),
            !is_blank_spec(reason@) && !old(self).projection().observations.contains_key(observation_id)
                ==> final(self).records() == old(self).records() && r == Err::<WorkingSetEntry, WorkspaceError>(
                WorkspaceError::ObservationNotFound(observation_id),
            ),
            !is_blank_spec(reason@) && old(self).projection().observations.contains_key(observation_id)
                ==> match r {
                Ok(e) => final(self).records() == old(self).records().push(
                    next_record(
                        old(self).projection(),
                        Event::ObservationFocused { observation_id, reason },
                    ),
                ) && final(self).projection().working_set.contains_key(observation_id) && e@
                    == final(self).projection().working_set[observation_id],
                Err(e) => e is CorruptLog && final(self).records() == old(self).records()
                    && old(self).projection().next_sequence == u64::MAX,
            },
    {
        if is_blank(reason.as_str()) {
            return Err(WorkspaceError::InvalidWorkingSet("focus reason must not be empty".to_owned()));
        }
        if self.observation_at(observation_id).is_none() {
            return Err(WorkspaceError::ObservationNotFound(observation_id));
        }
        match self.append(Event::ObservationFocused { observation_id, reason }) {
            Ok(()) => match self.focus_at(observation_id) {
                Some(e) => Ok(e),
                None => Err(WorkspaceError::CorruptLog("focus event was not projected".to_owned())),
            },
            Err(e) => Err(e),
        }
    }

    /// Disposition a finding: resolve, defer, suppress or mark it a false
    /// positive, naming an actor and a rationale. A disposition never
    /// touches the finding's freshness.
    pub fn dispose_finding(&mut self, finding_id: u64, disposition: FindingDisposition) -> (r: Result<
        Finding,
        WorkspaceError,
    >)
        requires
            old(self).wf(),
        ensures
            final(self).wf(),
            disposition@ is Open ==> final(self).records() == old(self).records() && (r matches Err(
                WorkspaceError::InvalidFinding(m),
            ) && m@ == "dispose-finding cannot set a finding back to open"@),
            disposition_parts(disposition@) matches Some((actor, rationale)) && (is_blank_spec(actor)
                || is_blank_spec(rationale)) ==> final(self).records() == old(self).records() && (
            r matches Err(WorkspaceError::InvalidFinding(m)) && m@
                == "finding disposition requires a non-empty actor and rationale"@),
            disposition_parts(disposition@) matches Some((actor, rationale)) && !is_blank_spec(actor)
                && !is_blank_spec(rationale) && !old(self).projection().findings.contains_key(finding_id)
                ==> final(self).records() == old(self).records() && r == Err::<Finding, WorkspaceError>(
                WorkspaceError::FindingNotFound(finding_id),
            ),
            disposition_parts(disposition@) matches Some((actor, rationale)) && !is_blank_spec(actor)
                && !is_blank_spec(rationale) && old(self).projection().findings.contains_key(finding_id)
                ==> match r {
                Ok(f) => final(self).records() == old(self).records().push(
                    next_record(
                        old(self).projection(),
                        Event::FindingDispositionChanged { finding_id, disposition },
                    ),
                ) && f@ == final(self).projection().findings[finding_id] && f@.report
                    == old(self).projection().findings[finding_id].report && f@.disposition
                    == disposition@,
                Err(e) => e is CorruptLog && final(self).records() == old(self).records()
                    && old(self).projection().next_sequence == u64::MAX,
            },
    {
        let (blank_actor, blank_rationale) = match &disposition {
            FindingDisposition::Open => {
                return Err(
                    WorkspaceError::InvalidFinding(
                        "dispose-finding cannot set a finding back to open".to_owned(),
                    ),
                );
            },
            FindingDisposition::Resolved { actor, rationale } => (
                is_blank(actor.as_str()),
                is_blank(rationale.as_str()),
            ),
            FindingDisposition::Deferred { actor, rationale } => (
                is_blank(actor.as_str()),
                is_blank(rationale.as_str()),
            ),
            FindingDisposition::Suppressed { actor, rationale } => (
                is_blank(actor.as_str()),
                is_blank(rationale.as_str()),
            ),
            FindingDisposition::FalsePositive { actor, rationale } => (
                is_blank(actor.as_str()),
                is_blank(rationale.as_str()),
            ),
        };
        if blank_actor || blank_rationale {
            return Err(
                WorkspaceError::InvalidFinding(
                    "finding disposition requires a non-empty actor and rationale".to_owned(),
                ),
            );
        }
        if self.finding_at(finding_id).is_none() {
            return Err(WorkspaceError::FindingNotFound(finding_id));
        }
        match self.append(Event::FindingDispositionChanged { finding_id, disposition }) {
            Ok(()) => match self.finding_at(finding_id) {
                Some(f) => Ok(f),
                None => Err(WorkspaceError::FindingNotFound(finding_id)),
            },
            Err(e) => Err(e),
        }
    }
}

/// Whether a report already holds a verdict.
pub open spec fn verdict_same(report: crate::model::FreshnessReportView, v: Verdict) -> bool {
    &&& report.freshness_within_scope == v.freshness
    &&& report.reason == v.reason@
    &&& report.operational_coverage.reconciliation_fingerprint == v.reconciliation_fingerprint@
}

impl Workspace {
    /// Reconcile one observation to a verdict recomputed from the repository: an
    /// unchanged verdict appends nothing; a changed one is recorded.
    pub fn reconcile_observation(&mut self, observation_id: u64, verdict: &Verdict) -> (r: Result<Observation, WorkspaceError>)
        requires
            old(self).wf(),
        ensures
            final(self).wf(),
            final(self).reads() == old(self).reads(),
            !old(self).projection().observations.contains_key(observation_id) ==> final(self).records() == old(self).records() && r == Err::<Observation, WorkspaceError>(WorkspaceError::ObservationNotFound(observation_id)),
            old(self).projection().observations.contains_key(observation_id) && verdict_same(
                old(self).projection().observations[observation_id].report,
                *verdict,
            ) ==> final(self).records() == old(self).records() && (r matches Ok(x) && x@ == old(self).projection().observations[observation_id]),
            old(self).projection().observations.contains_key(observation_id) && !verdict_same(
                old(self).projection().observations[observation_id].report,
                *verdict,
            ) ==> match r {
                Ok(x) => final(self).records() == old(self).records().push(
                    next_record(
                        old(self).projection(),
                        Event::ObservationReconciled {
                            observation_id,
                            freshness: verdict.freshness,
                            reason: verdict.reason,
                            reconciliation_fingerprint: verdict.reconciliation_fingerprint,
                        },
                    ),
                ) && x@ == final(self).projection().observations[observation_id] && x@.report
                    == crate::model::report_with_verdict(
                    old(self).projection().observations[observation_id].report,
                    verdict.freshness,
                    verdict.reason@,
                    verdict.reconciliation_fingerprint@,
                ),
                Err(e) => e is CorruptLog && final(self).records() == old(self).records()
                    && old(self).projection().next_sequence == u64::MAX,
            },
    {
        let current = match self.observation_at(observation_id) {
            None => {
                return Err(WorkspaceError::ObservationNotFound(observation_id));
            },
            Some(x) => x,
        };
        if crate::reconcile::verdict_unchanged(
            &current.report,
            verdict.freshness,
            verdict.reason.as_str(),
            verdict.reconciliation_fingerprint.as_str(),
        ) {
            return Ok(current);
        }
        let event = Event::ObservationReconciled {
            observation_id,
            freshness: verdict.freshness,
            reason: verdict.reason.clone(),
            reconciliation_fingerprint: verdict.reconciliation_fingerprint.clone(),
        };
        let ghost before = *self;
        match self.append(event) {
            Ok(()) => match self.observation_at(observation_id) {
                Some(x) => Ok(x),
                None => Err(WorkspaceError::ObservationNotFound(observation_id)),
            },
            Err(e) => {
                proof {
                    before.lemma_wf();
                }
                Err(e)
            },
        }
    }

    /// Reconcile one claim to a verdict recomputed from the repository: an
    /// unchanged verdict appends nothing; a changed one is recorded.
    pub fn reconcile_claim(&mut self, claim_id: u64, verdict: &Verdict) -> (r: Result<Claim, WorkspaceError>)
        requires
            old(self).wf(),
        ensures
            final(self).wf(),
            final(self).reads() == old(self).reads(),
            !old(self).projection().claims.contains_key(claim_id) ==> final(self).records() == old(self).records() && r == Err::<Claim, WorkspaceError>(WorkspaceError::ClaimNotFound(claim_id)),
            old(self).projection().claims.contains_key(claim_id) && verdict_same(
                old(self).projection().claims[claim_id].report,
                *verdict,
            ) ==> final(self).records() == old(self).records() && (r matches Ok(x) && x@ == old(self).projection().claims[claim_id]),
            old(self).projection().claims.contains_key(claim_id) && !verdict_same(
                old(self).projection().claims[claim_id].report,
                *verdict,
            ) ==> match r {
                Ok(x) => final(self).records() == old(self).records().push(
                    next_record(
                        old(self).projection(),
                        Event::ClaimReconciled {
                            claim_id,
                            freshness: verdict.freshness,
                            reason: verdict.reason,
                            reconciliation_fingerprint: verdict.reconciliation_fingerprint,
                        },
                    ),
                ) && x@ == final(self).projection().claims[claim_id] && x@.report
                    == crate::model::report_with_verdict(
                    old(self).projection().claims[claim_id].report,
                    verdict.freshness,
                    verdict.reason@,
                    verdict.reconciliation_fingerprint@,
                ),
                Err(e) => e is CorruptLog && final(self).records() == old(self).records()
                    && old(self).projection().next_sequence == u64::MAX,
            },
    {
        let current = match self.claim_at(claim_id) {
            None => {
                return Err(WorkspaceError::ClaimNotFound(claim_id));
            },
            Some(x) => x,
        };
        if crate::reconcile::verdict_unchanged(
            &current.report,
            verdict.freshness,
            verdict.reason.as_str(),
            verdict.reconciliation_fingerprint.as_str(),
        ) {
            return Ok(current);
        }
        let event = Event::ClaimReconciled {
            claim_id,
            freshness: verdict.freshness,
            reason: verdict.reason.clone(),
            reconciliation_fingerprint: verdict.reconciliation_fingerprint.clone(),
        };
        let ghost before = *self;
        match self.append(event) {
            Ok(()) => match self.claim_at(claim_id) {
                Some(x) => Ok(x),
                None => Err(WorkspaceError::ClaimNotFound(claim_id)),
            },
            Err(e) => {
                proof {
                    before.lemma_wf();
                }
                Err(e)
            },
        }
    }

    /// Reconcile one evidence to a verdict recomputed from the repository: an
    /// unchanged verdict appends nothing; a changed one is recorded.
    pub fn reconcile_evidence(&mut self, evidence_id: u64, verdict: &Verdict) -> (r: Result<Evidence, WorkspaceError>)
        requires
            old(self).wf(),
        ensures
            final(self).wf(),
            final(self).reads() == old(self).reads(),
            !old(self).projection().evidence.contains_key(evidence_id) ==> final(self).records() == old(self).records() && r == Err::<Evidence, WorkspaceError>(WorkspaceError::EvidenceNotFound(evidence_id)),
            old(self).projection().evidence.contains_key(evidence_id) && verdict_same(
                old(self).projection().evidence[evidence_id].report,
                *verdict,
            ) ==> final(self).records() == old(self).records() && (r matches Ok(x) && x@ == old(self).projection().evidence[evidence_id]),
            old(self).projection().evidence.contains_key(evidence_id) && !verdict_same(
                old(self).projection().evidence[evidence_id].report,
                *verdict,
            ) ==> match r {
                Ok(x) => final(self).records() == old(self).records().push(
                    next_record(
                        old(self).projection(),
                        Event::EvidenceReconciled {
                            evidence_id,
                            freshness: verdict.freshness,
                            reason: verdict.reason,
                            reconciliation_fingerprint: verdict.reconciliation_fingerprint,
                        },
                    ),
                ) && x@ == final(self).projection().evidence[evidence_id] && x@.report
                    == crate::model::report_with_verdict(
                    old(self).projection().evidence[evidence_id].report,
                    verdict.freshness,
                    verdict.reason@,
                    verdict.reconciliation_fingerprint@,
                ),
                Err(e) => e is CorruptLog && final(self).records() == old(self).records()
                    && old(self).projection().next_sequence == u64::MAX,
            },
    {
        let current = match self.evidence_at(evidence_id) {
            None => {
                return Err(WorkspaceError::EvidenceNotFound(evidence_id));
            },
            Some(x) => x,
        };
        if crate::reconcile::verdict_unchanged(
            &current.report,
            verdict.freshness,
            verdict.reason.as_str(),
            verdict.reconciliation_fingerprint.as_str(),
        ) {
            return Ok(current);
        }
        let event = Event::EvidenceReconciled {
            evidence_id,
            freshness: verdict.freshness,
            reason: verdict.reason.clone(),
            reconciliation_fingerprint: verdict.reconciliation_fingerprint.clone(),
        };
        let ghost before = *self;
        match self.append(event) {
            Ok(()) => match self.evidence_at(evidence_id) {
                Some(x) => Ok(x),
                None => Err(WorkspaceError::EvidenceNotFound(evidence_id)),
            },
            Err(e) => {
                proof {
                    before.lemma_wf();
                }
                Err(e)
            },
        }
    }

    /// Reconcile one finding to a verdict recomputed from the repository: an
    /// unchanged verdict appends nothing; a changed one is recorded.
    pub fn reconcile_finding(&mut self, finding_id: u64, verdict: &Verdict) -> (r: Result<Finding, WorkspaceError>)
        requires
            old(self).wf(),
        ensures
            final(self).wf(),
            final(self).reads() == old(self).reads(),
            !old(self).projection().findings.contains_key(finding_id) ==> final(self).records() == old(self).records() && r == Err::<Finding, WorkspaceError>(WorkspaceError::FindingNotFound(finding_id)),
            old(self).projection().findings.contains_key(finding_id) && verdict_same(
                old(self).projection().findings[finding_id].report,
                *verdict,
            ) ==> final(self).records() == old(self).records() && (r matches Ok(x) && x@ == old(self).projection().findings[finding_id]),
            old(self).projection().findings.contains_key(finding_id) && !verdict_same(
                old(self).projection().findings[finding_id].report,
                *verdict,
            ) ==> match r {
                Ok(x) => final(self).records() == old(self).records().push(
                    next_record(
                        old(self).projection(),
                        Event::FindingReconciled {
                            finding_id,
                            freshness: verdict.freshness,
                            reason: verdict.reason,
                            reconciliation_fingerprint: verdict.reconciliation_fingerprint,
                        },
                    ),
                ) && x@ == final(self).projection().findings[finding_id] && x@.report
                    == crate::model::report_with_verdict(
                    old(self).projection().findings[finding_id].report,
                    verdict.freshness,
                    verdict.reason@,
                    verdict.reconciliation_fingerprint@,
                ),
                Err(e) => e is CorruptLog && final(self).records() == old(self).records()
                    && old(self).projection().next_sequence == u64::MAX,
            },
    {
        let current = match self.finding_at(finding_id) {
            None => {
                return Err(WorkspaceError::FindingNotFound(finding_id));
            },
            Some(x) => x,
        };
        if crate::reconcile::verdict_unchanged(
            &current.report,
            verdict.freshness,
            verdict.reason.as_str(),
            verdict.reconciliation_fingerprint.as_str(),
        ) {
            return Ok(current);
        }
        let event = Event::FindingReconciled {
            finding_id,
            freshness: verdict.freshness,
            reason: verdict.reason.clone(),
            reconciliation_fingerprint: verdict.reconciliation_fingerprint.clone(),
        };
        let ghost before = *self;
        match self.append(event) {
            Ok(()) => match self.finding_at(finding_id) {
                Some(x) => Ok(x),
                None => Err(WorkspaceError::FindingNotFound(finding_id)),
            },
            Err(e) => {
                proof {
                    before.lemma_wf();
                }
                Err(e)
            },
        }
    }

    /// Associate a finding an open transaction addresses; repeating it is
    /// harmless.
    pub fn associate_finding(&mut self, transaction_id: u64, finding_id: u64) -> (r: Result<
        Transaction,
        WorkspaceError,
    >)
        requires
            old(self).wf(),
        ensures
            final(self).wf(),
            !old(self).projection().transactions.contains_key(transaction_id) ==> final(self).records()
                == old(self).records() && r == Err::<Transaction, WorkspaceError>(
                WorkspaceError::TransactionNotFound(transaction_id),
            ),
            old(self).projection().transactions.contains_key(transaction_id) && old(self).projection().transactions[transaction_id].state != TransactionState::Open ==> final(self).records() == old(self).records() && (r matches Err(WorkspaceError::InvalidTransaction(m))
                && m@ == "findings can only be associated with an open transaction"@),
            old(self).projection().transactions.contains_key(transaction_id) && old(self).projection().transactions[transaction_id].state == TransactionState::Open && !old(self).projection().findings.contains_key(finding_id) ==> final(self).records() == old(self).records() && r == Err::<Transaction, WorkspaceError>(
                WorkspaceError::FindingNotFound(finding_id),
            ),
            old(self).projection().transactions.contains_key(transaction_id) && old(self).projection().transactions[transaction_id].state == TransactionState::Open && old(self).projection().findings.contains_key(finding_id) ==> match r {
                Ok(t) => final(self).records() == old(self).records().push(
                    next_record(
                        old(self).projection(),
                        Event::TransactionFindingAssociated { transaction_id, finding_id },
                    ),
                ) && t@ == final(self).projection().transactions[transaction_id]
                    && t@.finding_ids.contains(finding_id),
                Err(e) => e is CorruptLog && final(self).records() == old(self).records()
                    && old(self).projection().next_sequence == u64::MAX,
            },
    {
        let t = match self.transaction_at(transaction_id) {
            None => {
                return Err(WorkspaceError::TransactionNotFound(transaction_id));
            },
            Some(t) => t,
        };
        if t.state != TransactionState::Open {
            return Err(
                WorkspaceError::InvalidTransaction(
                    "findings can only be associated with an open transaction".to_owned(),
                ),
            );
        }
        if self.finding_at(finding_id).is_none() {
            return Err(WorkspaceError::FindingNotFound(finding_id));
        }
        match self.append(Event::TransactionFindingAssociated { transaction_id, finding_id }) {
            Ok(()) => match self.transaction_at(transaction_id) {
                Some(t) => {
                    proof {
                        let ids = old(self).projection().transactions[transaction_id].finding_ids;
                        if !ids.contains(finding_id) {
                            assert(ids.push(finding_id)[ids.len() as int] == finding_id);
                        }
                    }
                    Ok(t)
                },
                None => Err(WorkspaceError::TransactionNotFound(transaction_id)),
            },
            Err(e) => Err(e),
        }
    }

    /// Record a residual risk knowingly accepted on an open transaction.
    pub fn record_residual_risk(&mut self, transaction_id: u64, risk: String) -> (r: Result<
        Transaction,
        WorkspaceError,
    >)
        requires
            old(self).wf(),
        ensures
            final(self).wf(),
            is_blank_spec(risk@) ==> final(self).records() == old(self).records() && (r matches Err(
                WorkspaceError::InvalidTransaction(m),
            ) && m@ == "a residual risk must not be empty"@),
            !is_blank_spec(risk@) && !old(self).projection().transactions.contains_key(transaction_id)
                ==> final(self).records() == old(self).records() && r == Err::<Transaction, WorkspaceError>(
                WorkspaceError::TransactionNotFound(transaction_id),
            ),
            !is_blank_spec(risk@) && old(self).projection().transactions.contains_key(transaction_id)
                && old(self).projection().transactions[transaction_id].state != TransactionState::Open
                ==> final(self).records() == old(self).records() && (r matches Err(
                WorkspaceError::InvalidTransaction(m),
            ) && m@ == "residual risks can only be recorded on an open transaction"@),
            !is_blank_spec(risk@) && old(self).projection().transactions.contains_key(transaction_id)
                && old(self).projection().transactions[transaction_id].state == TransactionState::Open
                ==> match r {
                Ok(t) => final(self).records() == old(self).records().push(
                    next_record(
                        old(self).projection(),
                        Event::TransactionResidualRiskRecorded { transaction_id, risk },
                    ),
                ) && t@ == final(self).projection().transactions[transaction_id],
                Err(e) => e is CorruptLog && final(self).records() == old(self).records()
                    && old(self).projection().next_sequence == u64::MAX,
            },
    {
        if is_blank(risk.as_str()) {
            return Err(
                WorkspaceError::InvalidTransaction("a residual risk must not be empty".to_owned()),
            );
        }
        let t = match self.transaction_at(transaction_id) {
            None => {
                return Err(WorkspaceError::TransactionNotFound(transaction_id));
            },
            Some(t) => t,
        };
        if t.state != TransactionState::Open {
            return Err(
                WorkspaceError::InvalidTransaction(
                    "residual risks can only be recorded on an open transaction".to_owned(),
                ),
            );
        }
        match self.append(Event::TransactionResidualRiskRecorded { transaction_id, risk }) {
            Ok(()) => match self.transaction_at(transaction_id) {
                Some(t) => Ok(t),
                None => Err(WorkspaceError::TransactionNotFound(transaction_id)),
            },
            Err(e) => Err(e),
        }
    }
}

pub open spec fn id_message(prefix: Seq<char>, id: u64, suffix: Seq<char>) -> Seq<char> {
    prefix + crate::text::decimal(id as nat) + suffix
}

pub(crate) fn id_message_exec(prefix: &str, id: u64, suffix: &str) -> (r: String)
    ensures
        r@ == id_message(prefix@, id, suffix@),
{
    let mut m = prefix.to_owned();
    crate::text::push_decimal(&mut m, id);
    m.append(suffix);
    m
}

/// Why a supersession is refused, if it is, in the order the checks run.
pub open spec fn supersede_refusal(
    p: ProjectionView,
    claim_id: u64,
    replacement_claim_id: u64,
    reason: Seq<char>,
) -> Option<WorkspaceError> {
    if is_blank_spec(reason) {
        Some(WorkspaceError::InvalidClaim(arbitrary()))
    } else if claim_id == replacement_claim_id {
        Some(WorkspaceError::InvalidClaim(arbitrary()))
    } else if !p.claims.contains_key(claim_id) {
        Some(WorkspaceError::ClaimNotFound(claim_id))
    } else if !(p.claims[claim_id].lifecycle is Active) {
        Some(WorkspaceError::InvalidClaim(arbitrary()))
    } else if !p.claims.contains_key(replacement_claim_id) {
        Some(WorkspaceError::ClaimNotFound(replacement_claim_id))
    } else if !(p.claims[replacement_claim_id].lifecycle is Active) {
        Some(WorkspaceError::InvalidClaim(arbitrary()))
    } else if crate::state::claim_in_open_transaction(p.transactions, claim_id) {
        Some(WorkspaceError::InvalidClaim(arbitrary()))
    } else {
        None
    }
}

/// The message of a refused supersession.
pub open spec fn supersede_refusal_message(
    p: ProjectionView,
    claim_id: u64,
    replacement_claim_id: u64,
    reason: Seq<char>,
) -> Seq<char> {
    if is_blank_spec(reason) {
        "supersession reason must not be empty"@
    } else if claim_id == replacement_claim_id {
        "a claim cannot supersede itself"@
    } else if !(p.claims[claim_id].lifecycle is Active) {
        id_message("claim "@, claim_id, " is already superseded"@)
    } else if !(p.claims[replacement_claim_id].lifecycle is Active) {
        id_message("replacement claim "@, replacement_claim_id, " is superseded"@)
    } else {
        id_message("claim "@, claim_id, " belongs to an open transaction"@)
    }
}

/// The same error, up to the message an invalid-claim error carries.
pub open spec fn same_error_kind(e: WorkspaceError, f: WorkspaceError) -> bool {
    match (e, f) {
        (WorkspaceError::InvalidClaim(_), WorkspaceError::InvalidClaim(_)) => true,
        _ => e == f,
    }
}

impl Workspace {
    /// Supersede an active claim by an active replacement, naming why. The
    /// claim is first reconciled to `verdict`, so the retired belief keeps
    /// an accurate final verdict.
    pub fn supersede_claim(
        &mut self,
        claim_id: u64,
        replacement_claim_id: u64,
        reason: String,
        verdict: &Verdict,
    ) -> (r: Result<Claim, WorkspaceError>)
        requires
            old(self).wf(),
        ensures
            final(self).wf(),
            extends(old(self).records(), final(self).records()),
            supersede_refusal(old(self).projection(), claim_id, replacement_claim_id, reason@) matches Some(
                k,
            ) ==> final(self).records() == old(self).records() && (r matches Err(e) && same_error_kind(
                e,
                k,
            ) && (e matches WorkspaceError::InvalidClaim(m) ==> m@ == supersede_refusal_message(
                old(self).projection(),
                claim_id,
                replacement_claim_id,
                reason@,
            ))),
            supersede_refusal(old(self).projection(), claim_id, replacement_claim_id, reason@) is None
                ==> match r {
                Ok(c) => {
                    let before = old(self).projection().claims[claim_id];
                    &&& final(self).records().len() == old(self).records().len() + 1 + (if verdict_same(
                        before.report,
                        *verdict,
                    ) {
                        0int
                    } else {
                        1int
                    })
                    &&& final(self).records().last().event == Event::ClaimSuperseded {
                        claim_id,
                        replacement_claim_id,
                        reason,
                    }
                    &&& c@ == final(self).projection().claims[claim_id]
                    &&& c@.lifecycle == crate::model::ClaimLifecycleView::Superseded {
                        replacement_claim_id,
                        reason: reason@,
                    }
                    &&& c@.report == crate::model::report_with_verdict(
                        before.report,
                        verdict.freshness,
                        verdict.reason@,
                        verdict.reconciliation_fingerprint@,
                    )
                },
                Err(e) => e is CorruptLog && old(self).projection().next_sequence >= u64::MAX - 1,
            },
    {
        if is_blank(reason.as_str()) {
            return Err(
                WorkspaceError::InvalidClaim("supersession reason must not be empty".to_owned()),
            );
        }
        if claim_id == replacement_claim_id {
            return Err(WorkspaceError::InvalidClaim("a claim cannot supersede itself".to_owned()));
        }
        let claim = match self.claim_at(claim_id) {
            None => {
                return Err(WorkspaceError::ClaimNotFound(claim_id));
            },
            Some(c) => c,
        };
        if !claim.lifecycle.is_active() {
            return Err(
                WorkspaceError::InvalidClaim(
                    id_message_exec("claim ", claim_id, " is already superseded"),
                ),
            );
        }
        let replacement = match self.claim_at(replacement_claim_id) {
            None => {
                return Err(WorkspaceError::ClaimNotFound(replacement_claim_id));
            },
            Some(c) => c,
        };
        if !replacement.lifecycle.is_active() {
            return Err(
                WorkspaceError::InvalidClaim(
                    id_message_exec("replacement claim ", replacement_claim_id, " is superseded"),
                ),
            );
        }
        if crate::state::claim_in_open_transaction_exec(&self.state.transactions, claim_id) {
            return Err(
                WorkspaceError::InvalidClaim(
                    id_message_exec("claim ", claim_id, " belongs to an open transaction"),
                ),
            );
        }
        let ghost before = *self;
        match self.reconcile_claim(claim_id, verdict) {
            Ok(_) => {},
            Err(e) => {
                return Err(e);
            },
        }
        let ghost p = self.projection();
        proof {
            if self.records() == before.records() {
                before.lemma_same_records(self);
            } else {
                before.lemma_one_more(self, self.records().last());
                assert(self.records() == before.records().push(self.records().last()));
            }
            assert(p.claims.contains_key(claim_id));
            assert(p.claims[claim_id].lifecycle is Active);
            assert(p.transactions == old(self).projection().transactions);
            assert(p.claims.contains_key(replacement_claim_id));
            assert(p.claims[replacement_claim_id] == old(self).projection().claims[replacement_claim_id]);
        }
        let ghost before_append = *self;
        match self.append(Event::ClaimSuperseded { claim_id, replacement_claim_id, reason }) {
            Ok(()) => match self.claim_at(claim_id) {
                Some(c) => Ok(c),
                None => Err(WorkspaceError::ClaimNotFound(claim_id)),
            },
            Err(e) => {
                proof {
                    before_append.lemma_wf();
                    before_append.lemma_sequence_is_length();
                    before.lemma_sequence_is_length();
                }
                Err(e)
            },
        }
    }
}

// ---------------------------------------------------------------------------
// Reconciling in bulk, and the resume surfaces.
#[derive(Clone, Copy, Debug, PartialEq, Eq, Structural)]
pub enum EntityKind {
    Observation,
    Claim,
    Evidence,
    Finding,
}

/// A verdict recomputed for one entity.
pub struct Reconciliation {
    pub kind: EntityKind,
    pub id: u64,
    pub verdict: Verdict,
}

/// The projection with one entity's report carrying a verdict; unchanged
/// when the entity does not exist.
pub open spec fn reconciled(p: ProjectionView, r: Reconciliation) -> ProjectionView {
    let v = r.verdict;
    match r.kind {
        EntityKind::Observation => if p.observations.contains_key(r.id) {
            ProjectionView {
                observations: p.observations.insert(
                    r.id,
                    ObservationView {
                        report: crate::model::report_with_verdict(
                            p.observations[r.id].report,
                            v.freshness,
                            v.reason@,
                            v.reconciliation_fingerprint@,
                        ),
                        ..p.observations[r.id]
                    },
                ),
                ..p
            }
        } else {
            p
        },
        EntityKind::Claim => if p.claims.contains_key(r.id) {
            ProjectionView {
                claims: p.claims.insert(
                    r.id,
                    ClaimView {
                        report: crate::model::report_with_verdict(
                            p.claims[r.id].report,
                            v.freshness,
                            v.reason@,
                            v.reconciliation_fingerprint@,
                        ),
                        ..p.claims[r.id]
                    },
                ),
                ..p
            }
        } else {
            p
        },
        EntityKind::Evidence => if p.evidence.contains_key(r.id) {
            ProjectionView {
                evidence: p.evidence.insert(
                    r.id,
                    EvidenceView {
                        report: crate::model::report_with_verdict(
                            p.evidence[r.id].report,
                            v.freshness,
                            v.reason@,
                            v.reconciliation_fingerprint@,
                        ),
                        ..p.evidence[r.id]
                    },
                ),
                ..p
            }
        } else {
            p
        },
        EntityKind::Finding => if p.findings.contains_key(r.id) {
            ProjectionView {
                findings: p.findings.insert(
                    r.id,
                    FindingView {
                        report: crate::model::report_with_verdict(
                            p.findings[r.id].report,
                            v.freshness,
                            v.reason@,
                            v.reconciliation_fingerprint@,
                        ),
                        ..p.findings[r.id]
                    },
                ),
                ..p
            }
        } else {
            p
        },
    }
}

/// Every verdict applied in order.
pub open spec fn reconciled_all(p: ProjectionView, rs: Seq<Reconciliation>) -> ProjectionView
    decreases rs.len(),
{
    if rs.len() == 0 {
        p
    } else {
        reconciled(reconciled_all(p, rs.drop_last()), rs.last())
    }
}

/// Equal up to the next sequence number.
pub open spec fn same_but_sequence(a: ProjectionView, b: ProjectionView) -> bool {
    a == ProjectionView { next_sequence: a.next_sequence, ..b }
}

impl Workspace {
    /// The full audit status of the projection, without reconciling.
    pub fn status(&self) -> (r: crate::projection::WorkspaceStatus)
        requires
            self.wf(),
        ensures
            crate::status::status_holds(self.projection(), &r),
    {
        crate::status::status_of(&self.state)
    }

    fn reconcile_one(&mut self, r: &Reconciliation) -> (res: Result<(), WorkspaceError>)
        requires
            old(self).wf(),
        ensures
            final(self).wf(),
            extends(old(self).records(), final(self).records()),
            res is Ok ==> same_but_sequence(final(self).projection(), reconciled(old(self).projection(), *r)),
            res matches Err(e) ==> e is CorruptLog,
            res is Err ==> old(self).projection().next_sequence == u64::MAX,
            final(self).records().len() <= old(self).records().len() + 1,
            final(self).reads() == old(self).reads(),
            standing(old(self).projection(), *r) ==> res is Ok && final(self).records() == old(self).records()
                && final(self).projection() == old(self).projection(),
    {
        let ghost before = *self;
        let ghost p = self.projection();
        let outcome = match r.kind {
            EntityKind::Observation => match self.reconcile_observation(r.id, &r.verdict) {
                Ok(_) => Ok(()),
                Err(WorkspaceError::ObservationNotFound(_)) => Ok(()),
                Err(e) => Err(e),
            },
            EntityKind::Claim => match self.reconcile_claim(r.id, &r.verdict) {
                Ok(_) => Ok(()),
                Err(WorkspaceError::ClaimNotFound(_)) => Ok(()),
                Err(e) => Err(e),
            },
            EntityKind::Evidence => match self.reconcile_evidence(r.id, &r.verdict) {
                Ok(_) => Ok(()),
                Err(WorkspaceError::EvidenceNotFound(_)) => Ok(()),
                Err(e) => Err(e),
            },
            EntityKind::Finding => match self.reconcile_finding(r.id, &r.verdict) {
                Ok(_) => Ok(()),
                Err(WorkspaceError::FindingNotFound(_)) => Ok(()),
                Err(e) => Err(e),
            },
        };
        proof {
            if self.records() == before.records() {
                before.lemma_same_records(self);
                let v = r.verdict;
                match r.kind {
                    EntityKind::Observation => if p.observations.contains_key(r.id) {
                        assert(p.observations.insert(r.id, p.observations[r.id]) =~= p.observations);
                    },
                    EntityKind::Claim => if p.claims.contains_key(r.id) {
                        assert(p.claims.insert(r.id, p.claims[r.id]) =~= p.claims);
                    },
                    EntityKind::Evidence => if p.evidence.contains_key(r.id) {
                        assert(p.evidence.insert(r.id, p.evidence[r.id]) =~= p.evidence);
                    },
                    EntityKind::Finding => if p.findings.contains_key(r.id) {
                        assert(p.findings.insert(r.id, p.findings[r.id]) =~= p.findings);
                    },
                }
            } else {
                assert(self.records() == before.records().push(self.records().last()));
                before.lemma_one_more(self, self.records().last());
            }
        }
        outcome
    }

    /// Apply verdicts recomputed from the repository, in order: changed
    /// ones are recorded, unchanged ones append nothing.
    pub fn apply_reconciliations(&mut self, rs: &Vec<Reconciliation>) -> (res: Result<(), WorkspaceError>)
        requires
            old(self).wf(),
        ensures
            final(self).wf(),
            extends(old(self).records(), final(self).records()),
            res is Ok ==> same_but_sequence(
                final(self).projection(),
                reconciled_all(old(self).projection(), rs@),
            ),
            res matches Err(e) ==> e is CorruptLog,
            old(self).projection().next_sequence + rs@.len() < u64::MAX ==> res is Ok,
            final(self).records().len() <= old(self).records().len() + rs@.len(),
            final(self).reads() == old(self).reads(),
            all_standing(old(self).projection(), rs@) ==> res is Ok && final(self).records() == old(self).records()
                && final(self).projection() == old(self).projection(),
    {
        proof {
            old(self).lemma_sequence_is_length();
        }
        let mut i: usize = 0;
        while i < rs.len()
            invariant
                i <= rs@.len(),
                self.wf(),
                extends(old(self).records(), self.records()),
                self.records().len() <= old(self).records().len() + i,
                old(self).projection().next_sequence == old(self).records().len(),
                self.reads() == old(self).reads(),
                all_standing(old(self).projection(), rs@) ==> self.records() == old(self).records()
                    && self.projection() == old(self).projection(),
                same_but_sequence(self.projection(), reconciled_all(old(self).projection(), rs@.take(i as int))),
            decreases rs.len() - i,
        {
            let ghost mid = *self;
            proof {
                if all_standing(old(self).projection(), rs@) {
                    assert(standing(old(self).projection(), rs@[i as int]));
                }
            }
            match self.reconcile_one(&rs[i]) {
                Ok(()) => {},
                Err(e) => {
                    proof {
                        mid.lemma_sequence_is_length();
                    }
                    return Err(e);
                },
            }
            proof {
                assert(rs@.take(i + 1).drop_last() =~= rs@.take(i as int));
                assert(rs@.take(i + 1).last() == rs@[i as int]);
                lemma_reconciled_sequence(
                    reconciled_all(old(self).projection(), rs@.take(i as int)),
                    rs@[i as int],
                );
            }
            i = i + 1;
        }
        assert(rs@.take(rs@.len() as int) =~= rs@);
        Ok(())
    }

    /// Reconcile, then report the full audit status.
    pub fn resume_status(&mut self, rs: &Vec<Reconciliation>) -> (r: Result<
        crate::projection::WorkspaceStatus,
        WorkspaceError,
    >)
        requires
            old(self).wf(),
        ensures
            final(self).wf(),
            extends(old(self).records(), final(self).records()),
            match r {
                Ok(st) => same_but_sequence(
                    final(self).projection(),
                    reconciled_all(old(self).projection(), rs@),
                ) && crate::status::status_holds(final(self).projection(), &st),
                Err(e) => e is CorruptLog && old(self).projection().next_sequence + rs@.len() >= u64::MAX,
            },
            final(self).reads() == old(self).reads(),
            all_standing(old(self).projection(), rs@) ==> final(self).records() == old(self).records()
                && (r matches Ok(st) && crate::status::status_holds(old(self).projection(), &st)),
    {
        match self.apply_reconciliations(rs) {
            Ok(()) => Ok(self.status()),
            Err(e) => Err(e),
        }
    }

    /// Reconcile, then report the bounded brief.
    pub fn resume_brief_status(&mut self, rs: &Vec<Reconciliation>) -> (r: Result<
        crate::projection::BriefStatus,
        WorkspaceError,
    >)
        requires
            old(self).wf(),
        ensures
            final(self).wf(),
            extends(old(self).records(), final(self).records()),
            match r {
                Ok(b) => same_but_sequence(
                    final(self).projection(),
                    reconciled_all(old(self).projection(), rs@),
                ) && exists|st: crate::projection::WorkspaceStatus|
                    crate::status::status_holds(final(self).projection(), &st)
                        && #[trigger] crate::projection::brief_holds(&st, &b),
                Err(e) => e is CorruptLog && old(self).projection().next_sequence + rs@.len() >= u64::MAX,
            },
    {
        match self.apply_reconciliations(rs) {
            Ok(()) => {
                let st = self.status();
                let b = st.brief();
                assert(crate::status::status_holds(self.projection(), &st) && crate::projection::brief_holds(&st, &b));
                Ok(b)
            },
            Err(e) => Err(e),
        }
    }

    /// Reconcile, then report the bounded findings queue.
    pub fn resume_findings_view(&mut self, rs: &Vec<Reconciliation>) -> (r: Result<
        crate::projection::FindingsView,
        WorkspaceError,
    >)
        requires
            old(self).wf(),
        ensures
            final(self).wf(),
            extends(old(self).records(), final(self).records()),
            match r {
                Ok(v) => same_but_sequence(
                    final(self).projection(),
                    reconciled_all(old(self).projection(), rs@),
                ) && exists|st: crate::projection::WorkspaceStatus|
                    crate::status::status_holds(final(self).projection(), &st)
                        && #[trigger] crate::projection::findings_view_holds(&st, &v),
                Err(e) => e is CorruptLog && old(self).projection().next_sequence + rs@.len() >= u64::MAX,
            },
    {
        match self.apply_reconciliations(rs) {
            Ok(()) => {
                let st = self.status();
                let v = st.findings_view();
                assert(crate::status::status_holds(self.projection(), &st) && crate::projection::findings_view_holds(&st, &v));
                assert(exists|st2: crate::projection::WorkspaceStatus|
                    crate::status::status_holds(self.projection(), &st2)
                        && #[trigger] crate::projection::findings_view_holds(&st2, &v));
                assert(same_but_sequence(self.projection(), reconciled_all(old(self).projection(), rs@)));
                let out = Ok(v);
                assert(out matches Ok(w) && w == v);
                out
            },
            Err(e) => Err(e),
        }
    }

    /// Reconcile, then preview one transaction, given whether its owned
    /// bytes drifted on disk.
    pub fn resume_transaction_preview(
        &mut self,
        transaction_id: u64,
        rs: &Vec<Reconciliation>,
        candidate_drift: Option<String>,
    ) -> (r: Result<Option<crate::projection::TransactionPreview>, WorkspaceError>)
        requires
            old(self).wf(),
        ensures
            final(self).wf(),
            extends(old(self).records(), final(self).records()),
            match r {
                Ok(v) => same_but_sequence(
                    final(self).projection(),
                    reconciled_all(old(self).projection(), rs@),
                ) && exists|st: crate::projection::WorkspaceStatus|
                    crate::status::status_holds(final(self).projection(), &st)
                        && #[trigger] crate::projection::preview_holds(
                        &st,
                        transaction_id,
                        crate::model::opt_str(candidate_drift),
                        &v,
                    ),
                Err(e) => e is CorruptLog && old(self).projection().next_sequence + rs@.len() >= u64::MAX,
            },
    {
        match self.apply_reconciliations(rs) {
            Ok(()) => {
                let st = self.status();
                let ghost drift = match &candidate_drift {
                    Some(d) => Some(d@),
                    None => None,
                };
                let v = st.transaction_preview(transaction_id, candidate_drift);
                assert(crate::status::status_holds(self.projection(), &st) && crate::projection::preview_holds(&st, transaction_id, drift, &v));
                Ok(v)
            },
            Err(e) => Err(e),
        }
    }
}

/// A reconciliation whose verdict its entity already carries (or whose
/// entity is unknown): applying it records nothing.
pub open spec fn standing(p: ProjectionView, r: Reconciliation) -> bool {
    match r.kind {
        EntityKind::Observation => p.observations.contains_key(r.id) ==> verdict_same(
            p.observations[r.id].report,
            r.verdict,
        ),
        EntityKind::Claim => p.claims.contains_key(r.id) ==> verdict_same(p.claims[r.id].report, r.verdict),
        EntityKind::Evidence => p.evidence.contains_key(r.id) ==> verdict_same(
            p.evidence[r.id].report,
            r.verdict,
        ),
        EntityKind::Finding => p.findings.contains_key(r.id) ==> verdict_same(
            p.findings[r.id].report,
            r.verdict,
        ),
    }
}

/// Every reconciliation of `rs` is standing.
pub open spec fn all_standing(p: ProjectionView, rs: Seq<Reconciliation>) -> bool {
    forall|i: int| 0 <= i < rs.len() ==> #[trigger] standing(p, rs[i])
}

/// Reconciling keeps the projection equal up to its sequence number.
proof fn lemma_reconciled_sequence(p: ProjectionView, r: Reconciliation)
    ensures
        reconciled(p, r).next_sequence == p.next_sequence,
{
}

// ---------------------------------------------------------------------------
// Transactions.
/// What re-reading one owned path gave: its bytes, or the read error's text.
pub enum OwnedRead {
    Bytes(Vec<u8>),
    Failed(String),
}

pub open spec fn owned_read_drift(m: crate::model::MutationView, read: OwnedRead) -> Option<Seq<char>> {
    match read {
        OwnedRead::Bytes(b) => if crate::digest::hex_digest_spec(b@) == m.after_fingerprint {
            None
        } else {
            Some(
                "owned bytes at "@ + m.path + " drifted since apply (post-apply edit or formatter)"@,
            )
        },
        OwnedRead::Failed(e) => Some("cannot re-verify owned bytes at "@ + m.path + ": "@ + e@),
    }
}

/// The first owned path whose bytes no longer hash to what was applied.
pub open spec fn drift_spec(ms: Seq<crate::model::MutationView>, reads: Seq<OwnedRead>) -> Option<
    Seq<char>,
>
    decreases ms.len(),
{
    if ms.len() == 0 || reads.len() == 0 {
        None
    } else {
        match owned_read_drift(ms[0], reads[0]) {
            Some(d) => Some(d),
            None => drift_spec(ms.drop_first(), reads.drop_first()),
        }
    }
}

/// Re-verify that a transaction's owned bytes sit on disk exactly as
/// applied, given what re-reading each mutated path gave; the first drift
/// is named.
pub fn candidate_drift(transaction: &Transaction, reads: &Vec<OwnedRead>) -> (r: Option<String>)
    requires
        reads@.len() == transaction.mutations@.len(),
    ensures
        crate::model::opt_str(r) == drift_spec(
            crate::model::mutations_view(transaction.mutations@),
            reads@,
        ),
{
    let ghost ms = crate::model::mutations_view(transaction.mutations@);
    let mut i: usize = 0;
    assert(ms.skip(0) =~= ms);
    assert(reads@.skip(0) =~= reads@);
    while i < reads.len()
        invariant
            i <= reads@.len(),
            reads@.len() == transaction.mutations@.len(),
            ms == crate::model::mutations_view(transaction.mutations@),
            drift_spec(ms, reads@) == drift_spec(ms.skip(i as int), reads@.skip(i as int)),
        decreases reads.len() - i,
    {
        let m = &transaction.mutations[i];
        proof {
            assert(ms.skip(i as int)[0] == m@);
            assert(reads@.skip(i as int)[0] == reads@[i as int]);
            assert(ms.skip(i as int).drop_first() =~= ms.skip(i + 1));
            assert(reads@.skip(i as int).drop_first() =~= reads@.skip(i + 1));
        }
        match &reads[i] {
            OwnedRead::Bytes(b) => {
                let h = crate::digest::hex_digest(b.as_slice());
                if !crate::text::str_equal(h.as_str(), m.after_fingerprint.as_str()) {
                    let mut d = "owned bytes at ".to_owned();
                    d.append(m.path.as_str());
                    d.append(" drifted since apply (post-apply edit or formatter)");
                    return Some(d);
                }
            },
            OwnedRead::Failed(e) => {
                let mut d = "cannot re-verify owned bytes at ".to_owned();
                d.append(m.path.as_str());
                d.append(": ");
                d.append(e.as_str());
                return Some(d);
            },
        }
        i = i + 1;
    }
    assert(ms.skip(i as int).len() == 0);
    None
}

/// The first acceptance claim that is missing or superseded: whether it is
/// missing, and its id.
pub open spec fn acceptance_refusal(claims: Map<u64, ClaimView>, ids: Seq<u64>) -> Option<(bool, u64)>
    decreases ids.len(),
{
    if ids.len() == 0 {
        None
    } else if !claims.contains_key(ids[0]) {
        Some((true, ids[0]))
    } else if !(claims[ids[0]].lifecycle is Active) {
        Some((false, ids[0]))
    } else {
        acceptance_refusal(claims, ids.drop_first())
    }
}

impl Workspace {
    /// Begin a change transaction whose acceptance rests on active claims,
    /// at a base revision with an initial worktree fingerprint.
    pub fn begin_transaction(
        &mut self,
        intent: String,
        acceptance_claim_ids: Vec<u64>,
        base_revision: String,
        initial_worktree_fingerprint: String,
    ) -> (r: Result<Transaction, WorkspaceError>)
        requires
            old(self).wf(),
        ensures
            final(self).wf(),
            is_blank_spec(intent@) ==> final(self).records() == old(self).records() && (r matches Err(
                WorkspaceError::InvalidTransaction(m),
            ) && m@ == "a transaction intent is required"@),
            !is_blank_spec(intent@) && acceptance_claim_ids@.len() == 0 ==> final(self).records()
                == old(self).records() && (r matches Err(WorkspaceError::InvalidTransaction(m)) && m@
                == "at least one acceptance claim is required"@),
            !is_blank_spec(intent@) && acceptance_claim_ids@.len() > 0 ==> match acceptance_refusal(
                old(self).projection().claims,
                acceptance_claim_ids@,
            ) {
                Some((true, id)) => final(self).records() == old(self).records() && r == Err::<
                    Transaction,
                    WorkspaceError,
                >(WorkspaceError::ClaimNotFound(id)),
                Some((false, id)) => final(self).records() == old(self).records() && (r matches Err(
                    WorkspaceError::InvalidTransaction(m),
                ) && m@ == id_message("acceptance claim "@, id, " is superseded"@)),
                None => match r {
                    Ok(t) => final(self).records() == old(self).records().push(
                        next_record(
                            old(self).projection(),
                            Event::TransactionBegan {
                                transaction_id: old(self).projection().next_transaction_id,
                                intent: Some(intent),
                                base_revision,
                                initial_worktree_fingerprint,
                                acceptance_claim_ids,
                            },
                        ),
                    ) && t@ == final(self).projection().transactions[old(self).projection().next_transaction_id] && t@.state == TransactionState::Open,
                    Err(e) => e is CorruptLog && final(self).records() == old(self).records() && (old(
                        self,
                    ).projection().next_sequence == u64::MAX || old(self).projection().next_transaction_id
                        == u64::MAX),
                },
            },
    {
        if is_blank(intent.as_str()) {
            return Err(
                WorkspaceError::InvalidTransaction("a transaction intent is required".to_owned()),
            );
        }
        if acceptance_claim_ids.len() == 0 {
            return Err(
                WorkspaceError::InvalidTransaction(
                    "at least one acceptance claim is required".to_owned(),
                ),
            );
        }
        let ghost ids = acceptance_claim_ids@;
        let mut i: usize = 0;
        assert(ids.skip(0) =~= ids);
        while i < acceptance_claim_ids.len()
            invariant
                self.wf(),
                self == old(self),
                i <= ids.len(),
                ids == acceptance_claim_ids@,
                !is_blank_spec(intent@),
                ids.len() > 0,
                acceptance_refusal(self.projection().claims, ids) == acceptance_refusal(
                    self.projection().claims,
                    ids.skip(i as int),
                ),
            decreases ids.len() - i,
        {
            let id = acceptance_claim_ids[i];
            proof {
                assert(ids.skip(i as int)[0] == id);
                assert(ids.skip(i as int).drop_first() =~= ids.skip(i + 1));
            }
            match self.claim_at(id) {
                None => {
                    return Err(WorkspaceError::ClaimNotFound(id));
                },
                Some(c) => {
                    if !c.lifecycle.is_active() {
                        return Err(
                            WorkspaceError::InvalidTransaction(
                                id_message_exec("acceptance claim ", id, " is superseded"),
                            ),
                        );
                    }
                },
            }
            i = i + 1;
        }
        proof {
            lemma_no_refusal(self.projection().claims, ids);
        }
        let transaction_id = self.state.next_transaction_id;
        let event = Event::TransactionBegan {
            transaction_id,
            intent: Some(intent),
            base_revision,
            initial_worktree_fingerprint,
            acceptance_claim_ids,
        };
        let ghost before = *self;
        match self.append(event) {
            Ok(()) => match self.transaction_at(transaction_id) {
                Some(t) => Ok(t),
                None => Err(WorkspaceError::TransactionNotFound(transaction_id)),
            },
            Err(e) => {
                proof {
                    before.lemma_wf();
                }
                Err(e)
            },
        }
    }
}

/// With no refusal, every acceptance claim exists and is active, so the
/// replay raises none either.
proof fn lemma_no_refusal(claims: Map<u64, ClaimView>, ids: Seq<u64>)
    requires
        acceptance_refusal(claims, ids) is None,
    ensures
        crate::state::acceptance_claims_error(claims, ids) is None,
    decreases ids.len(),
{
    if ids.len() > 0 {
        lemma_no_refusal(claims, ids.drop_first());
    }
}

pub open spec fn reads_view(reads: Seq<crate::reconcile::LocationRead>) -> Seq<crate::reconcile::LocationReadView> {
    reads.map_values(|x: crate::reconcile::LocationRead| x@)
}

impl Workspace {
    /// Record evidence from a check run for an open transaction's
    /// acceptance claim, bound to the transaction's current candidate. The
    /// claim's inputs must read current now (`reads` is what re-reading each
    /// gave) and the candidate must be on disk (`drift` names any drift).
    pub fn record_evidence(
        &mut self,
        transaction_id: u64,
        claim_id: u64,
        check_name: String,
        invocation: String,
        provider: String,
        outcome: crate::model::EvidenceOutcome,
        revision: &str,
        reads: &Vec<crate::reconcile::LocationRead>,
        drift: Option<String>,
    ) -> (r: Result<Evidence, WorkspaceError>)
        requires
            old(self).wf(),
            old(self).projection().claims.contains_key(claim_id) ==> reads@.len() == old(self).projection().claims[claim_id].inputs.len(),
        ensures
            final(self).wf(),
            ({
                let p = old(self).projection();
                let t = p.transactions[transaction_id];
                let c = p.claims[claim_id];
                let verdict = crate::reconcile::assess_spec(c.inputs, reads_view(reads@));
                if !p.transactions.contains_key(transaction_id) {
                    final(self).records() == old(self).records() && r == Err::<Evidence, WorkspaceError>(
                        WorkspaceError::TransactionNotFound(transaction_id),
                    )
                } else if t.state != TransactionState::Open || !t.acceptance_claim_ids.contains(claim_id) {
                    final(self).records() == old(self).records() && (r matches Err(
                        WorkspaceError::InvalidEvidence(m),
                    ) && m@ == "evidence must support an open transaction acceptance claim"@)
                } else if !p.claims.contains_key(claim_id) {
                    final(self).records() == old(self).records() && r == Err::<Evidence, WorkspaceError>(
                        WorkspaceError::ClaimNotFound(claim_id),
                    )
                } else if !(c.lifecycle is Active) {
                    final(self).records() == old(self).records() && (r matches Err(
                        WorkspaceError::InvalidEvidence(m),
                    ) && m@ == id_message("claim "@, claim_id, " is superseded"@))
                } else if verdict.0 != crate::model::FreshnessWithinScope::Current {
                    final(self).records() == old(self).records() && (r matches Err(
                        WorkspaceError::InvalidEvidence(m),
                    ) && m@ == "claim inputs are not current"@)
                } else if drift is Some {
                    final(self).records() == old(self).records() && (r matches Err(
                        WorkspaceError::InvalidEvidence(m),
                    ) && m@ == "candidate not materialized: "@ + drift->0@)
                } else {
                    match r {
                        Ok(e) => {
                            &&& final(self).records().len() == old(self).records().len() + 1
                            &&& final(self).records().drop_last() == old(self).records()
                            &&& final(self).records().last().sequence == p.next_sequence
                            &&& final(self).records().last().event is EvidenceRecorded
                            &&& final(self).projection().evidence.contains_key(p.next_evidence_id)
                            &&& e@ == final(self).projection().evidence[p.next_evidence_id]
                            &&& e@.id == p.next_evidence_id
                            &&& e@.transaction_id == transaction_id
                            &&& e@.claim_id == claim_id
                            &&& e@.check_name == check_name@
                            &&& e@.invocation == invocation@
                            &&& e@.provider == provider@
                            &&& e@.outcome == outcome
                            &&& e@.inputs == c.inputs
                            &&& e@.candidate_fingerprint == crate::projection::candidate_of(t)
                            &&& e@.report.freshness_within_scope == crate::model::FreshnessWithinScope::Current
                            &&& e@.report.reason == verdict.1
                            &&& e@.report.operational_coverage.reconciliation_fingerprint
                                == crate::digest::hex_digest_spec(
                                crate::reconcile::scoped_material(
                                    revision@,
                                    crate::reconcile::assessed_inputs(c.inputs, reads_view(reads@)),
                                ),
                            )
                            &&& final(self).projection().transactions[transaction_id].evidence_ids
                                == t.evidence_ids.push(p.next_evidence_id)
                        },
                        Err(e) => e is CorruptLog && final(self).records() == old(self).records() && (
                        p.next_sequence == u64::MAX || p.next_evidence_id == u64::MAX),
                    }
                }
            }),
    {
        let t = match self.transaction_at(transaction_id) {
            None => {
                return Err(WorkspaceError::TransactionNotFound(transaction_id));
            },
            Some(t) => t,
        };
        if t.state != TransactionState::Open || !crate::state::vec_contains(
            &t.acceptance_claim_ids,
            claim_id,
        ) {
            return Err(
                WorkspaceError::InvalidEvidence(
                    "evidence must support an open transaction acceptance claim".to_owned(),
                ),
            );
        }
        let c = match self.claim_at(claim_id) {
            None => {
                return Err(WorkspaceError::ClaimNotFound(claim_id));
            },
            Some(c) => c,
        };
        if !c.lifecycle.is_active() {
            return Err(
                WorkspaceError::InvalidEvidence(id_message_exec("claim ", claim_id, " is superseded")),
            );
        }
        let (freshness, reason, fingerprint_inputs) = crate::reconcile::assess_claim_inputs(
            &c.inputs,
            reads,
        );
        if freshness != crate::model::FreshnessWithinScope::Current {
            return Err(WorkspaceError::InvalidEvidence("claim inputs are not current".to_owned()));
        }
        match drift {
            Some(d) => {
                let mut m = "candidate not materialized: ".to_owned();
                m.append(d.as_str());
                return Err(WorkspaceError::InvalidEvidence(m));
            },
            None => {},
        }
        let candidate_fingerprint = t.candidate_fingerprint();
        let reconciliation_fingerprint = crate::reconcile::scoped_reconciliation_fingerprint(
            revision,
            &fingerprint_inputs,
        );
        let evidence_id = self.state.next_evidence_id;
        let ghost p = self.projection();
        let event = Event::EvidenceRecorded {
            evidence_id,
            transaction_id,
            claim_id,
            check_name,
            invocation,
            provider,
            outcome,
            inputs: crate::model::clone_inputs(&c.inputs),
            candidate_fingerprint,
            freshness,
            reason,
            reconciliation_fingerprint,
        };
        let ghost before = *self;
        match self.append(event) {
            Ok(()) => {
                proof {
                    assert(self.records().drop_last() =~= before.records());
                }
                match self.evidence_at(evidence_id) {
                    Some(e) => Ok(e),
                    None => Err(WorkspaceError::EvidenceNotFound(evidence_id)),
                }
            },
            Err(e) => {
                proof {
                    before.lemma_wf();
                }
                Err(e)
            },
        }
    }
}

/// Reconciling touches only reports.
proof fn lemma_reconciled_keeps(p: ProjectionView, rs: Seq<Reconciliation>)
    ensures
        reconciled_all(p, rs).transactions == p.transactions,
        reconciled_all(p, rs).checkpoints == p.checkpoints,
        reconciled_all(p, rs).objective == p.objective,
        reconciled_all(p, rs).working_set == p.working_set,
        reconciled_all(p, rs).observations.dom() == p.observations.dom(),
        reconciled_all(p, rs).claims.dom() == p.claims.dom(),
    decreases rs.len(),
{
    if rs.len() > 0 {
        lemma_reconciled_keeps(p, rs.drop_last());
        let q = reconciled_all(p, rs.drop_last());
        let r = rs.last();
        if r.kind == EntityKind::Observation && q.observations.contains_key(r.id) {
            assert(q.observations.insert(r.id, reconciled(q, r).observations[r.id]).dom() =~= q.observations.dom());
        }
        if r.kind == EntityKind::Claim && q.claims.contains_key(r.id) {
            assert(q.claims.insert(r.id, reconciled(q, r).claims[r.id]).dom() =~= q.claims.dom());
        }
    }
}

impl Workspace {
    /// Record an acceptance decision on an open transaction.
    fn record_decision(&mut self, transaction_id: u64, validated: bool, reason: String) -> (r: Result<
        Transaction,
        WorkspaceError,
    >)
        requires
            old(self).wf(),
            old(self).projection().transactions.contains_key(transaction_id),
        ensures
            final(self).wf(),
            extends(old(self).records(), final(self).records()),
            match r {
                Ok(t) => {
                    &&& final(self).records().last().event == if validated {
                        Event::TransactionAccepted { transaction_id }
                    } else {
                        Event::TransactionAcceptanceRejected { transaction_id, reason }
                    }
                    &&& final(self).records() == old(self).records().push(final(self).records().last())
                    &&& t@ == final(self).projection().transactions[transaction_id]
                    &&& t@.state == if validated {
                        TransactionState::Accepted
                    } else {
                        old(self).projection().transactions[transaction_id].state
                    }
                    &&& !validated ==> t@.last_rejection == Some(reason@)
                },
                Err(e) => e is CorruptLog && old(self).projection().next_sequence == u64::MAX,
            },
    {
        let event = if validated {
            Event::TransactionAccepted { transaction_id }
        } else {
            Event::TransactionAcceptanceRejected { transaction_id, reason }
        };
        let ghost before = *self;
        match self.append(event) {
            Ok(()) => match self.transaction_at(transaction_id) {
                Some(t) => Ok(t),
                None => Err(WorkspaceError::TransactionNotFound(transaction_id)),
            },
            Err(e) => {
                proof {
                    before.lemma_wf();
                }
                Err(e)
            },
        }
    }
}

/// The acceptance decision for a transaction of a status, given whether its
/// owned bytes drifted: drift rejects; otherwise the acceptance rule decides.
pub open spec fn acceptance_decision(
    st: &crate::projection::WorkspaceStatus,
    t: TransactionView,
    drift: Option<Seq<char>>,
) -> (bool, Seq<char>) {
    match drift {
        Some(d) => (false, d),
        None => crate::projection::readiness_spec(vseq(st.claims@), vseq(st.evidence@), t),
    }
}

impl Workspace {
    /// Decide an open transaction: reconcile its acceptance claims and
    /// evidence to the given verdicts, then accept it when its owned bytes
    /// are on disk as applied and every acceptance claim is current with
    /// passing evidence bound to the current candidate; otherwise record the
    /// rejection and why.
    #[verifier::rlimit(40)]
    pub fn accept_transaction(
        &mut self,
        transaction_id: u64,
        rs: &Vec<Reconciliation>,
        drift: Option<String>,
    ) -> (r: Result<Transaction, WorkspaceError>)
        requires
            old(self).wf(),
        ensures
            final(self).wf(),
            extends(old(self).records(), final(self).records()),
            !old(self).projection().transactions.contains_key(transaction_id) ==> final(self).records()
                == old(self).records() && r == Err::<Transaction, WorkspaceError>(
                WorkspaceError::TransactionNotFound(transaction_id),
            ),
            old(self).projection().transactions.contains_key(transaction_id) && old(self).projection().transactions[transaction_id].state != TransactionState::Open ==> final(self).records() == old(self).records() && (r matches Err(WorkspaceError::InvalidTransaction(m))
                && m@ == "transaction is not open"@),
            old(self).projection().transactions.contains_key(transaction_id) && old(self).projection().transactions[transaction_id].state == TransactionState::Open ==> match r {
                Ok(t) => {
                    let q = reconciled_all(old(self).projection(), rs@);
                    exists|st: crate::projection::WorkspaceStatus|
                        #[trigger] crate::status::status_holds(q, &st) && {
                            let (ready, reason) = acceptance_decision(
                                &st,
                                q.transactions[transaction_id],
                                crate::model::opt_str(drift),
                            );
                            &&& final(self).records().last().event == if ready {
                                Event::TransactionAccepted { transaction_id }
                            } else {
                                final(self).records().last().event
                            }
                            &&& !ready ==> (final(self).records().last().event matches Event::TransactionAcceptanceRejected {
                                transaction_id: id,
                                reason: m,
                            } && id == transaction_id && m@ == reason)
                            &&& t@ == final(self).projection().transactions[transaction_id]
                            &&& t@.state == if ready {
                                TransactionState::Accepted
                            } else {
                                TransactionState::Open
                            }
                            &&& !ready ==> t@.last_rejection == Some(reason)
                        }
                },
                Err(e) => e is CorruptLog && old(self).projection().next_sequence + rs@.len() + 1 >= u64::MAX,
            },
    {
        let t = match self.transaction_at(transaction_id) {
            None => {
                return Err(WorkspaceError::TransactionNotFound(transaction_id));
            },
            Some(t) => t,
        };
        if t.state != TransactionState::Open {
            return Err(WorkspaceError::InvalidTransaction("transaction is not open".to_owned()));
        }
        match self.apply_reconciliations(rs) {
            Ok(()) => {},
            Err(e) => {
                return Err(e);
            },
        }
        let st = self.status();
        let ghost q = reconciled_all(old(self).projection(), rs@);
        proof {
            lemma_reconciled_keeps(old(self).projection(), rs@);
        }
        let current = match self.transaction_at(transaction_id) {
            None => {
                return Err(WorkspaceError::TransactionNotFound(transaction_id));
            },
            Some(t) => t,
        };
        proof {
            assert(crate::status::status_holds(q, &st));
            assert(current@ == q.transactions[transaction_id]);
        }
        let ghost drift_view = crate::model::opt_str(drift);
        let (validated, reason) = match drift {
            Some(d) => (false, d),
            None => st.acceptance_readiness(&current),
        };
        assert((validated, reason@) == acceptance_decision(&st, q.transactions[transaction_id], drift_view));
        proof {
            lemma_reconciled_keeps(old(self).projection(), rs@);
        }
        let ghost mid = *self;
        let r = self.record_decision(transaction_id, validated, reason);
        proof {
            if r is Err {
                mid.lemma_sequence_is_length();
                old(self).lemma_sequence_is_length();
            }
        }
        r
    }
}

pub open spec fn label_used(cs: Seq<crate::model::CheckpointMarkerView>, label: Seq<char>) -> bool {
    exists|i: int| 0 <= i < cs.len() && (#[trigger] cs[i]).label == label
}

fn find_label(cs: &Vec<crate::model::CheckpointMarker>, label: &str) -> (r: Option<usize>)
    ensures
        match r {
            Some(i) => i < cs@.len() && cs@[i as int].label@ == label@ && forall|j: int|
                0 <= j < i ==> (#[trigger] cs@[j]).label@ != label@,
            None => !label_used(vseq(cs@), label@),
        },
{
    let mut i: usize = 0;
    while i < cs.len()
        invariant
            i <= cs@.len(),
            forall|j: int| 0 <= j < i ==> (#[trigger] cs@[j]).label@ != label@,
        decreases cs.len() - i,
    {
        if crate::text::str_equal(cs[i].label.as_str(), label) {
            return Some(i);
        }
        i = i + 1;
    }
    proof {
        assert forall|j: int| 0 <= j < vseq(cs@).len() implies (#[trigger] vseq(cs@)[j]).label != label@ by {
            assert(vseq(cs@)[j] == cs@[j]@);
        }
    }
    None
}

impl Workspace {
    /// Draw a named line in the log: reconcile to the given verdicts so the
    /// line anchors an accurate baseline, then record the checkpoint at the
    /// repository's current revision. Labels are unique.
    #[verifier::rlimit(40)]
    pub fn checkpoint(
        &mut self,
        label: String,
        note: Option<String>,
        git_revision: String,
        rs: &Vec<Reconciliation>,
    ) -> (r: Result<crate::model::CheckpointMarker, WorkspaceError>)
        requires
            old(self).wf(),
        ensures
            final(self).wf(),
            extends(old(self).records(), final(self).records()),
            is_blank_spec(label@) ==> final(self).records() == old(self).records() && (r matches Err(
                WorkspaceError::InvalidCheckpoint(m),
            ) && m@ == "label must not be empty"@),
            !is_blank_spec(label@) && label_used(old(self).projection().checkpoints, label@) ==> final(self).records() == old(self).records() && (r matches Err(WorkspaceError::InvalidCheckpoint(m))
                && m@ == "label "@ + crate::text::debug_str_spec(label@) + " is already used"@),
            !is_blank_spec(label@) && !label_used(old(self).projection().checkpoints, label@) ==> match r {
                Ok(m) => {
                    &&& same_but_sequence(
                        ProjectionView {
                            checkpoints: final(self).projection().checkpoints.drop_last(),
                            ..final(self).projection()
                        },
                        reconciled_all(old(self).projection(), rs@),
                    )
                    &&& final(self).records().last().event == Event::Checkpointed {
                        label,
                        note,
                        git_revision,
                    }
                    &&& m@ == final(self).projection().checkpoints.last()
                    &&& m@.label == label@
                    &&& m@.sequence == final(self).records().last().sequence
                    &&& m@.objective == old(self).projection().objective
                },
                Err(e) => e is CorruptLog && old(self).projection().next_sequence + rs@.len() + 1 >= u64::MAX,
            },
    {
        if is_blank(label.as_str()) {
            return Err(WorkspaceError::InvalidCheckpoint("label must not be empty".to_owned()));
        }
        if let Some(k) = find_label(&self.state.checkpoints, label.as_str()) {
            proof {
                assert(vseq(self.state.checkpoints@)[k as int].label == label@);
            }
            let mut m = "label ".to_owned();
            let quoted = crate::text::debug_str(label.as_str());
            m.append(quoted.as_str());
            m.append(" is already used");
            return Err(WorkspaceError::InvalidCheckpoint(m));
        }
        match self.apply_reconciliations(rs) {
            Ok(()) => {},
            Err(e) => {
                return Err(e);
            },
        }
        proof {
            lemma_reconciled_keeps(old(self).projection(), rs@);
        }
        let ghost mid = *self;
        let r = self.append_checkpoint(label, note, git_revision);
        proof {
            if r is Err {
                mid.lemma_sequence_is_length();
                old(self).lemma_sequence_is_length();
            }
        }
        r
    }

    fn append_checkpoint(&mut self, label: String, note: Option<String>, git_revision: String) -> (r: Result<
        crate::model::CheckpointMarker,
        WorkspaceError,
    >)
        requires
            old(self).wf(),
        ensures
            final(self).wf(),
            extends(old(self).records(), final(self).records()),
            match r {
                Ok(m) => {
                    &&& same_but_sequence(
                        ProjectionView {
                            checkpoints: final(self).projection().checkpoints.drop_last(),
                            ..final(self).projection()
                        },
                        old(self).projection(),
                    )
                    &&& final(self).records() == old(self).records().push(final(self).records().last())
                    &&& final(self).records().last().event == Event::Checkpointed {
                        label,
                        note,
                        git_revision,
                    }
                    &&& m@ == final(self).projection().checkpoints.last()
                    &&& m@.label == label@
                    &&& m@.sequence == final(self).records().last().sequence
                    &&& m@.objective == old(self).projection().objective
                },
                Err(e) => e is CorruptLog && old(self).projection().next_sequence == u64::MAX,
            },
    {
        let ghost before = *self;
        match self.append(Event::Checkpointed { label, note, git_revision }) {
            Ok(()) => {},
            Err(e) => {
                return Err(e);
            },
        }
        proof {
            assert(self.records() == before.records().push(self.records().last()));
            before.lemma_one_more(self, self.records().last());
            assert(self.projection().checkpoints.drop_last() =~= before.projection().checkpoints);
        }
        let n = self.state.checkpoints.len();
        let m = self.state.checkpoints[n - 1].clone();
        assert(vseq(self.state.checkpoints@)[n - 1] == m@);
        Ok(m)
    }
}

/// The checkpoint a delta diffs against: the first with `label`, or the
/// latest.
pub open spec fn chosen_checkpoint(
    cps: Seq<crate::model::CheckpointMarkerView>,
    label: Option<Seq<char>>,
    m: crate::model::CheckpointMarkerView,
) -> bool {
    match label {
        Some(l) => exists|k: int|
            0 <= k < cps.len() && #[trigger] cps[k] == m && m.label == l && forall|j: int|
                0 <= j < k ==> (#[trigger] cps[j]).label != l,
        None => cps.len() > 0 && m == cps.last(),
    }
}

pub open spec fn no_checkpoint(cps: Seq<crate::model::CheckpointMarkerView>, label: Option<Seq<char>>) -> bool {
    match label {
        Some(l) => !label_used(cps, l),
        None => cps.len() == 0,
    }
}

pub open spec fn missing_label(label: Option<Seq<char>>) -> Seq<char> {
    match label {
        Some(l) => l,
        None => "<latest>"@,
    }
}

impl Workspace {
    fn checkpoint_for(&self, label: Option<&str>) -> (r: Result<crate::model::CheckpointMarker, WorkspaceError>)
        requires
            self.wf(),
        ensures
            no_checkpoint(self.projection().checkpoints, crate::locate::opt_view(label)) ==> (r matches Err(
                WorkspaceError::CheckpointNotFound(m),
            ) && m@ == missing_label(crate::locate::opt_view(label))),
            !no_checkpoint(self.projection().checkpoints, crate::locate::opt_view(label)) ==> (r matches Ok(
                m,
            ) && chosen_checkpoint(self.projection().checkpoints, crate::locate::opt_view(label), m@)),
    {
        let cps = &self.state.checkpoints;
        match label {
            Some(l) => match find_label(cps, l) {
                Some(k) => {
                    let m = cps[k].clone();
                    proof {
                        assert(vseq(cps@)[k as int] == m@);
                        assert forall|j: int| 0 <= j < k implies (#[trigger] vseq(cps@)[j]).label != l@ by {
                            assert(vseq(cps@)[j] == cps@[j]@);
                        }
                    }
                    Ok(m)
                },
                None => Err(WorkspaceError::CheckpointNotFound(l.to_owned())),
            },
            None => {
                if cps.len() == 0 {
                    Err(WorkspaceError::CheckpointNotFound("<latest>".to_owned()))
                } else {
                    let m = cps[cps.len() - 1].clone();
                    assert(vseq(cps@).last() == m@);
                    Ok(m)
                }
            },
        }
    }

    /// The projection of the log up to and including `max_sequence`: what
    /// the log described then, without reconciling.
    pub fn project_upto(&mut self, max_sequence: u64) -> (r: Result<Projection, WorkspaceError>)
        requires
            old(self).wf(),
        ensures
            final(self).wf(),
            final(self).records() == old(self).records(),
            final(self).projection() == old(self).projection(),
            final(self).reads() == if old(self).reads() < usize::MAX {
                old(self).reads() + 1
            } else {
                old(self).reads()
            },
            match spec_replay(empty_projection(), old(self).records(), Some(max_sequence)) {
                Ok(q) => r matches Ok(p) && p.wf() && p@ == q,
                Err(k) => r matches Err(e) && error_is(e, k),
            },
    {
        if self.event_log_reads < usize::MAX {
            self.event_log_reads = self.event_log_reads + 1;
        }
        replay(&self.log, Some(max_sequence))
    }

    /// What changed since a checkpoint (the latest when no label is given):
    /// the log replayed up to it against the status reconciled to the given
    /// verdicts.
    pub fn delta_since(&mut self, label: Option<&str>, rs: &Vec<Reconciliation>) -> (r: Result<
        crate::projection::DeltaStatus,
        WorkspaceError,
    >)
        requires
            old(self).wf(),
        ensures
            final(self).wf(),
            extends(old(self).records(), final(self).records()),
            no_checkpoint(old(self).projection().checkpoints, crate::locate::opt_view(label)) ==> final(self).records() == old(self).records() && (r matches Err(WorkspaceError::CheckpointNotFound(m))
                && m@ == missing_label(crate::locate::opt_view(label))),
            !no_checkpoint(old(self).projection().checkpoints, crate::locate::opt_view(label))
                && old(self).projection().next_sequence + rs@.len() < u64::MAX ==> r is Ok,
            r matches Err(e) ==> e is CheckpointNotFound || e is CorruptLog,
            r matches Ok(d) ==> {
                &&& chosen_checkpoint(
                    old(self).projection().checkpoints,
                    crate::locate::opt_view(label),
                    d.checkpoint@,
                )
                &&& same_but_sequence(
                    final(self).projection(),
                    reconciled_all(old(self).projection(), rs@),
                )
                &&& spec_replay(empty_projection(), old(self).records(), Some(d.checkpoint.sequence)) matches Ok(b)
                &&& exists|st: crate::projection::WorkspaceStatus|
                    crate::status::status_holds(final(self).projection(), &st)
                        && #[trigger] crate::delta::delta_holds(d.checkpoint@, b, &st, &d)
            },
    {
        let checkpoint = match self.checkpoint_for(label) {
            Ok(m) => m,
            Err(e) => {
                return Err(e);
            },
        };
        proof {
            self.lemma_wf();
            crate::state::lemma_replay_prefix_ok(empty_projection(), self.records(), checkpoint.sequence);
        }
        let baseline = match self.project_upto(checkpoint.sequence) {
            Ok(p) => p,
            Err(e) => {
                return Err(e);
            },
        };
        let current = match self.resume_status(rs) {
            Ok(st) => st,
            Err(e) => {
                return Err(e);
            },
        };
        let ghost cp = checkpoint@;
        let d = crate::delta::delta_between(checkpoint, &baseline, &current);
        assert(crate::status::status_holds(self.projection(), &current) && crate::delta::delta_holds(cp, baseline@, &current, &d));
        Ok(d)
    }

    /// The bounded delta since a checkpoint: reconcile (the active claims,
    /// whose verdicts it serves) to the given verdicts, then summarize what
    /// changed by ids.
    pub fn delta_brief_since(&mut self, label: Option<&str>, rs: &Vec<Reconciliation>) -> (r: Result<
        crate::projection::BriefDeltaStatus,
        WorkspaceError,
    >)
        requires
            old(self).wf(),
        ensures
            final(self).wf(),
            extends(old(self).records(), final(self).records()),
            r matches Ok(bd) ==> {
                &&& same_but_sequence(
                    final(self).projection(),
                    reconciled_all(old(self).projection(), rs@),
                )
                &&& exists|st: crate::projection::WorkspaceStatus, d: crate::projection::DeltaStatus|
                    #![trigger crate::delta::delta_holds(d.checkpoint@, spec_replay(empty_projection(), old(self).records(), Some(d.checkpoint.sequence))->Ok_0, &st, &d), crate::projection::delta_brief_holds(&d, &bd)]
                    {
                        &&& crate::status::status_holds(final(self).projection(), &st)
                        &&& chosen_checkpoint(
                            old(self).projection().checkpoints,
                            crate::locate::opt_view(label),
                            d.checkpoint@,
                        )
                        &&& spec_replay(empty_projection(), old(self).records(), Some(d.checkpoint.sequence)) is Ok
                        &&& crate::delta::delta_holds(
                            d.checkpoint@,
                            spec_replay(empty_projection(), old(self).records(), Some(d.checkpoint.sequence))->Ok_0,
                            &st,
                            &d,
                        )
                        &&& crate::projection::delta_brief_holds(&d, &bd)
                    }
            },
            r matches Err(WorkspaceError::CheckpointNotFound(m)) ==> no_checkpoint(
                old(self).projection().checkpoints,
                crate::locate::opt_view(label),
            ) && m@ == missing_label(crate::locate::opt_view(label)),
            no_checkpoint(old(self).projection().checkpoints, crate::locate::opt_view(label)) ==> final(self).records() == old(self).records() && (r matches Err(WorkspaceError::CheckpointNotFound(m))
                && m@ == missing_label(crate::locate::opt_view(label))),
            !no_checkpoint(old(self).projection().checkpoints, crate::locate::opt_view(label))
                && old(self).projection().next_sequence + rs@.len() < u64::MAX ==> r is Ok,
            r matches Err(e) ==> e is CheckpointNotFound || e is CorruptLog,
    {
        let checkpoint = match self.checkpoint_for(label) {
            Ok(m) => m,
            Err(e) => {
                return Err(e);
            },
        };
        proof {
            self.lemma_wf();
            crate::state::lemma_replay_prefix_ok(empty_projection(), self.records(), checkpoint.sequence);
        }
        let baseline = match self.project_upto(checkpoint.sequence) {
            Ok(p) => p,
            Err(e) => {
                return Err(e);
            },
        };
        match self.apply_reconciliations(rs) {
            Ok(()) => {},
            Err(e) => {
                return Err(e);
            },
        }
        let current = self.status();
        let d = crate::delta::delta_between(checkpoint, &baseline, &current);
        let bd = d.brief();
        assert(crate::status::status_holds(self.projection(), &current) && crate::delta::delta_holds(
            d.checkpoint@,
            spec_replay(empty_projection(), old(self).records(), Some(d.checkpoint.sequence))->Ok_0,
            &current,
            &d,
        ) && crate::projection::delta_brief_holds(&d, &bd));
        Ok(bd)
    }
}

// ---------------------------------------------------------------------------
// Claims.
/// A whole-file dependency as fingerprinted now: the normalizer its path
/// resolves to, its normalized fingerprint, and its raw fingerprint when a
/// normalizer applies.
pub struct DependencyFingerprint {
    pub path: String,
    pub normalizer: crate::model::Normalizer,
    pub input_fingerprint: String,
    pub raw_fingerprint: Option<String>,
}

/// The derived order on selectors: the whole file first, then ranges by
/// start and end.
pub open spec fn selector_less(a: crate::model::ObservationSelector, b: crate::model::ObservationSelector) -> bool {
    match (a, b) {
        (crate::model::ObservationSelector::WholeFile, crate::model::ObservationSelector::ByteRange { .. }) => true,
        (
            crate::model::ObservationSelector::ByteRange { start: s1, end: e1 },
            crate::model::ObservationSelector::ByteRange { start: s2, end: e2 },
        ) => s1 < s2 || (s1 == s2 && e1 < e2),
        _ => false,
    }
}

pub open spec fn same_key(a: crate::model::ClaimInputView, b: crate::model::ClaimInputView) -> bool {
    a.path == b.path && a.selector == b.selector
}

/// Inputs are keyed by path, then selector.
pub open spec fn key_less(a: crate::model::ClaimInputView, b: crate::model::ClaimInputView) -> bool {
    crate::text::path_less_spec(a.path, b.path) || (a.path == b.path && selector_less(a.selector, b.selector))
}

/// Insert an input into a keyed listing: in key order, and on an equal key
/// either replacing the present input or keeping it.
pub open spec fn insert_input(
    s: Seq<crate::model::ClaimInputView>,
    x: crate::model::ClaimInputView,
    overwrite: bool,
) -> Seq<crate::model::ClaimInputView>
    decreases s.len(),
{
    if s.len() == 0 {
        seq![x]
    } else if same_key(s[0], x) {
        seq![if overwrite {
            x
        } else {
            s[0]
        }] + s.drop_first()
    } else if key_less(x, s[0]) {
        seq![x] + s
    } else {
        seq![s[0]] + insert_input(s.drop_first(), x, overwrite)
    }
}

pub open spec fn insert_all(
    s: Seq<crate::model::ClaimInputView>,
    xs: Seq<crate::model::ClaimInputView>,
    overwrite: bool,
) -> Seq<crate::model::ClaimInputView>
    decreases xs.len(),
{
    if xs.len() == 0 {
        s
    } else {
        insert_input(insert_all(s, xs.drop_last(), overwrite), xs.last(), overwrite)
    }
}

pub open spec fn supporting_input(o: ObservationView) -> crate::model::ClaimInputView {
    crate::model::ClaimInputView {
        path: o.path,
        selector: o.selector,
        normalizer: o.normalizer,
        recorded_input_fingerprint: o.observed_input_fingerprint,
        recorded_raw_fingerprint: o.observed_raw_fingerprint,
        source: crate::model::ClaimInputSource::SupportingObservation,
    }
}

pub open spec fn dependency_input(d: DependencyFingerprint, source: crate::model::ClaimInputSource) -> crate::model::ClaimInputView {
    crate::model::ClaimInputView {
        path: d.path@,
        selector: crate::model::ObservationSelector::WholeFile,
        normalizer: d.normalizer,
        recorded_input_fingerprint: d.input_fingerprint@,
        recorded_raw_fingerprint: crate::model::opt_str(d.raw_fingerprint),
        source,
    }
}

/// The inputs a claim rests on: its supporting observations' units (a
/// later one with the same location replacing an earlier), then declared
/// whole-file dependencies, then conservative siblings, neither replacing a
/// present location; listed by location.
pub open spec fn claim_inputs_spec(
    obs: Map<u64, ObservationView>,
    ids: Seq<u64>,
    declared: Seq<DependencyFingerprint>,
    conservative: Seq<DependencyFingerprint>,
) -> Seq<crate::model::ClaimInputView> {
    let a = insert_all(
        Seq::empty(),
        ids.map_values(|id: u64| supporting_input(obs[id])),
        true,
    );
    let b = insert_all(
        a,
        declared.map_values(
            |d: DependencyFingerprint| dependency_input(d, crate::model::ClaimInputSource::DeclaredDependency),
        ),
        false,
    );
    insert_all(
        b,
        conservative.map_values(
            |d: DependencyFingerprint|
                dependency_input(d, crate::model::ClaimInputSource::ConservativeDependency),
        ),
        false,
    )
}

fn selector_less_exec(a: crate::model::ObservationSelector, b: crate::model::ObservationSelector) -> (r: bool)
    ensures
        r == selector_less(a, b),
{
    match (a, b) {
        (crate::model::ObservationSelector::WholeFile, crate::model::ObservationSelector::ByteRange { .. }) => true,
        (
            crate::model::ObservationSelector::ByteRange { start: s1, end: e1 },
            crate::model::ObservationSelector::ByteRange { start: s2, end: e2 },
        ) => s1 < s2 || (s1 == s2 && e1 < e2),
        _ => false,
    }
}

fn insert_input_exec(v: &mut Vec<crate::model::ClaimInput>, x: crate::model::ClaimInput, overwrite: bool)
    ensures
        crate::model::inputs_view(final(v)@) == insert_input(crate::model::inputs_view(old(v)@), x@, overwrite),
{
    let ghost s = crate::model::inputs_view(v@);
    let mut k: usize = 0;
    assert(s.skip(0) =~= s);
    assert(s.take(0) + insert_input(s.skip(0), x@, overwrite) =~= insert_input(s, x@, overwrite));
    while k < v.len()
        invariant
            k <= v@.len(),
            s == crate::model::inputs_view(v@),
            s == crate::model::inputs_view(old(v)@),
            insert_input(s, x@, overwrite) == s.take(k as int) + insert_input(s.skip(k as int), x@, overwrite),
        decreases v.len() - k,
    {
        proof {
            assert(s.skip(k as int)[0] == v@[k as int]@);
            assert(s.skip(k as int).drop_first() =~= s.skip(k + 1));
            assert(s.take(k + 1) =~= s.take(k as int).push(s[k as int]));
        }
        let same = crate::text::str_equal(v[k].path.as_str(), x.path.as_str()) && v[k].selector == x.selector;
        assert(same == same_key(s.skip(k as int)[0], x@));
        if same {
            assert(insert_input(s.skip(k as int), x@, overwrite) == seq![if overwrite {
                x@
            } else {
                s[k as int]
            }] + s.skip(k as int).drop_first());
            if overwrite {
                let ghost before = v@;
                v.set(k, x);
                proof {
                    assert(crate::model::inputs_view(v@) =~= s.take(k as int) + (seq![x@] + s.skip(k as int).drop_first()));
                }
            }
            else {
                assert(s =~= s.take(k as int) + (seq![s[k as int]] + s.skip(k as int).drop_first()));
            }
            return;
        }
        let less = crate::text::path_less(x.path.as_str(), v[k].path.as_str()) || (crate::text::str_equal(
            x.path.as_str(),
            v[k].path.as_str(),
        ) && selector_less_exec(x.selector, v[k].selector));
        assert(less == key_less(x@, s.skip(k as int)[0]));
        if less {
            assert(insert_input(s.skip(k as int), x@, overwrite) == seq![x@] + s.skip(k as int));
            let ghost xv = x@;
            v.insert(k, x);
            proof {
                assert(crate::model::inputs_view(v@) =~= s.take(k as int) + (seq![xv] + s.skip(k as int)));
            }
            return;
        }
        proof {
            assert(insert_input(s.skip(k as int), x@, overwrite) == seq![s[k as int]] + insert_input(s.skip(k + 1), x@, overwrite));
            assert(s.take(k as int) + (seq![s[k as int]] + insert_input(s.skip(k + 1), x@, overwrite)) =~= s.take(k + 1)
                + insert_input(s.skip(k + 1), x@, overwrite));
        }
        k = k + 1;
    }
    let ghost xv = x@;
    v.push(x);
    proof {
        assert(s.skip(k as int) =~= Seq::<crate::model::ClaimInputView>::empty());
        assert(s.take(k as int) =~= s);
        assert(crate::model::inputs_view(v@) =~= s.push(xv));
    }
}

/// The first supporting id with no observation.
pub open spec fn first_missing(obs: Map<u64, ObservationView>, ids: Seq<u64>) -> Option<u64>
    decreases ids.len(),
{
    if ids.len() == 0 {
        None
    } else if !obs.contains_key(ids[0]) {
        Some(ids[0])
    } else {
        first_missing(obs, ids.drop_first())
    }
}

impl Workspace {
    /// Check a claim before any dependency is read: it needs a statement and
    /// at least one supporting observation, each of them recorded.
    pub fn check_claim(&self, statement: &str, supporting_observation_ids: &Vec<u64>) -> (r: Result<(), WorkspaceError>)
        requires
            self.wf(),
        ensures
            is_blank_spec(statement@) ==> (r matches Err(WorkspaceError::InvalidClaim(m)) && m@
                == "statement must not be empty"@),
            !is_blank_spec(statement@) && supporting_observation_ids@.len() == 0 ==> (r matches Err(
                WorkspaceError::InvalidClaim(m),
            ) && m@ == "at least one supporting observation is required"@),
            !is_blank_spec(statement@) && supporting_observation_ids@.len() > 0 ==> match first_missing(
                self.projection().observations,
                supporting_observation_ids@,
            ) {
                Some(id) => r == Err::<(), WorkspaceError>(WorkspaceError::ObservationNotFound(id)),
                None => r is Ok,
            },
    {
        if is_blank(statement) {
            return Err(WorkspaceError::InvalidClaim("statement must not be empty".to_owned()));
        }
        if supporting_observation_ids.len() == 0 {
            return Err(WorkspaceError::InvalidClaim("at least one supporting observation is required".to_owned()));
        }
        let ghost ids = supporting_observation_ids@;
        let ghost p = self.projection();
        let mut i: usize = 0;
        assert(ids.skip(0) =~= ids);
        while i < supporting_observation_ids.len()
            invariant
                self.wf(),
                p == self.projection(),
                i <= ids.len(),
                ids == supporting_observation_ids@,
                first_missing(p.observations, ids) == first_missing(p.observations, ids.skip(i as int)),
                !is_blank_spec(statement@),
                ids.len() > 0,
            decreases ids.len() - i,
        {
            let id = supporting_observation_ids[i];
            proof {
                assert(ids.skip(i as int)[0] == id);
                assert(ids.skip(i as int).drop_first() =~= ids.skip(i + 1));
            }
            if self.observation_at(id).is_none() {
                return Err(WorkspaceError::ObservationNotFound(id));
            }
            i = i + 1;
        }
        assert(ids.skip(i as int) =~= Seq::<u64>::empty());
        Ok(())
    }
}

/// The first dependency whose path is not repository-relative.
pub open spec fn first_invalid_path(ds: Seq<DependencyFingerprint>) -> Option<Seq<char>>
    decreases ds.len(),
{
    if ds.len() == 0 {
        None
    } else if !crate::paths::is_relative_path(ds[0].path@) {
        Some(ds[0].path@)
    } else {
        first_invalid_path(ds.drop_first())
    }
}

pub open spec fn siblings_in_scope(
    strategy: crate::model::ClaimScopeStrategy,
    conservative: Seq<DependencyFingerprint>,
) -> Seq<DependencyFingerprint> {
    if strategy == crate::model::ClaimScopeStrategy::ConservativeSiblingFiles {
        conservative
    } else {
        Seq::empty()
    }
}

fn insert_supporting(v: &mut Vec<crate::model::ClaimInput>, obs: &Projection, ids: &Vec<u64>)
    requires
        obs.wf(),
        crate::model::inputs_view(old(v)@) == Seq::<crate::model::ClaimInputView>::empty(),
        forall|i: int| 0 <= i < ids@.len() ==> obs@.observations.contains_key(#[trigger] ids@[i]),
    ensures
        crate::model::inputs_view(final(v)@) == insert_all(
            Seq::empty(),
            ids@.map_values(|id: u64| supporting_input(obs@.observations[id])),
            true,
        ),
{
    let ghost xs = ids@.map_values(|id: u64| supporting_input(obs@.observations[id]));
    let mut i: usize = 0;
    assert(xs.take(0) =~= Seq::<crate::model::ClaimInputView>::empty());
    while i < ids.len()
        invariant
            i <= ids@.len(),
            obs.wf(),
            forall|j: int| 0 <= j < ids@.len() ==> obs@.observations.contains_key(#[trigger] ids@[j]),
            xs == ids@.map_values(|id: u64| supporting_input(obs@.observations[id])),
            crate::model::inputs_view(v@) == insert_all(Seq::empty(), xs.take(i as int), true),
        decreases ids.len() - i,
    {
        let id = ids[i];
        assert(obs@.observations.contains_key(ids@[i as int]));
        let k = match find_index(&obs.observations, id) {
            Some(k) => k,
            None => {
                return;
            },
        };
        let o = &obs.observations[k];
        let x = crate::model::ClaimInput {
            path: o.path.clone(),
            selector: o.selector,
            normalizer: o.normalizer,
            recorded_input_fingerprint: o.observed_input_fingerprint.clone(),
            recorded_raw_fingerprint: crate::model::clone_opt_string(&o.observed_raw_fingerprint),
            source: crate::model::ClaimInputSource::SupportingObservation,
        };
        proof {
            assert(xs.take(i + 1).drop_last() =~= xs.take(i as int));
            assert(xs.take(i + 1).last() == xs[i as int]);
            assert(x@ == supporting_input(obs@.observations[id]));
        }
        insert_input_exec(v, x, true);
        i = i + 1;
    }
    assert(xs.take(ids@.len() as int) =~= xs);
}

fn insert_dependencies(
    v: &mut Vec<crate::model::ClaimInput>,
    ds: &Vec<DependencyFingerprint>,
    source: crate::model::ClaimInputSource,
)
    ensures
        crate::model::inputs_view(final(v)@) == insert_all(
            crate::model::inputs_view(old(v)@),
            ds@.map_values(|d: DependencyFingerprint| dependency_input(d, source)),
            false,
        ),
{
    let ghost s0 = crate::model::inputs_view(v@);
    let ghost xs = ds@.map_values(|d: DependencyFingerprint| dependency_input(d, source));
    let mut i: usize = 0;
    assert(xs.take(0) =~= Seq::<crate::model::ClaimInputView>::empty());
    while i < ds.len()
        invariant
            i <= ds@.len(),
            xs == ds@.map_values(|d: DependencyFingerprint| dependency_input(d, source)),
            s0 == crate::model::inputs_view(old(v)@),
            crate::model::inputs_view(v@) == insert_all(s0, xs.take(i as int), false),
        decreases ds.len() - i,
    {
        let d = &ds[i];
        let x = crate::model::ClaimInput {
            path: d.path.clone(),
            selector: crate::model::ObservationSelector::WholeFile,
            normalizer: d.normalizer,
            recorded_input_fingerprint: d.input_fingerprint.clone(),
            recorded_raw_fingerprint: crate::model::clone_opt_string(&d.raw_fingerprint),
            source,
        };
        proof {
            assert(xs.take(i + 1).drop_last() =~= xs.take(i as int));
            assert(xs.take(i + 1).last() == xs[i as int]);
            assert(x@ == dependency_input(*d, source));
        }
        insert_input_exec(v, x, false);
        i = i + 1;
    }
    assert(xs.take(ds@.len() as int) =~= xs);
}

/// What recording a claim does: refuse with the first failing check, or
/// append its record with the assessed inputs.
pub open spec fn claim_recording(
    old_ws: Workspace,
    new_ws: Workspace,
    statement: Seq<char>,
    supporting_observation_ids: Seq<u64>,
    declared: Seq<DependencyFingerprint>,
    siblings: Seq<DependencyFingerprint>,
    scope_strategy: crate::model::ClaimScopeStrategy,
    revision: Seq<char>,
    reads: Seq<crate::reconcile::LocationRead>,
    r: Result<Claim, WorkspaceError>,
) -> bool {
    ({
                let p = old_ws.projection();
                let inputs = claim_inputs_spec(
                    p.observations,
                    supporting_observation_ids,
                    declared,
                    siblings,
                );
                let verdict = crate::reconcile::assess_spec(inputs, reads_view(reads));
                if is_blank_spec(statement) {
                    new_ws.records() == old_ws.records() && (r matches Err(
                        WorkspaceError::InvalidClaim(m),
                    ) && m@ == "statement must not be empty"@)
                } else if supporting_observation_ids.len() == 0 {
                    new_ws.records() == old_ws.records() && (r matches Err(
                        WorkspaceError::InvalidClaim(m),
                    ) && m@ == "at least one supporting observation is required"@)
                } else if first_missing(p.observations, supporting_observation_ids) is Some {
                    new_ws.records() == old_ws.records() && r == Err::<Claim, WorkspaceError>(
                        WorkspaceError::ObservationNotFound(
                            first_missing(p.observations, supporting_observation_ids)->0,
                        ),
                    )
                } else if first_invalid_path(declared) is Some {
                    new_ws.records() == old_ws.records() && (r matches Err(
                        WorkspaceError::InvalidPath(m),
                    ) && m@ == first_invalid_path(declared)->0)
                } else {
                    match r {
                        Ok(c) => {
                            &&& new_ws.records().len() == old_ws.records().len() + 1
                            &&& new_ws.records().drop_last() == old_ws.records()
                            &&& new_ws.records().last().event is ClaimRecorded
                            &&& c@ == new_ws.projection().claims[p.next_claim_id]
                            &&& c@.id == p.next_claim_id
                            &&& c@.statement == statement
                            &&& c@.supporting_observation_ids == supporting_observation_ids
                            &&& c@.scope_strategy == scope_strategy
                            &&& c@.inputs == inputs
                            &&& c@.lifecycle is Active
                            &&& c@.report.freshness_within_scope == verdict.0
                            &&& c@.report.reason == verdict.1
                            &&& c@.report.operational_coverage.reconciliation_fingerprint
                                == crate::digest::hex_digest_spec(
                                crate::reconcile::scoped_material(
                                    revision,
                                    crate::reconcile::assessed_inputs(inputs, reads_view(reads)),
                                ),
                            )
                            &&& new_ws.projection().observations_since_last_claim == 0
                        },
                        Err(e) => e is CorruptLog && new_ws.records() == old_ws.records() && (p.next_sequence
                            == u64::MAX || p.next_claim_id == u64::MAX),
                    }
                }
            })
}

impl Workspace {
    /// Record a claim resting on supporting observations and declared
    /// whole-file dependencies (plus conservative siblings under that
    /// strategy), assessed against what re-reading its inputs gave now.
    #[verifier::rlimit(60)]
    pub fn record_claim_with_scope(
        &mut self,
        statement: String,
        supporting_observation_ids: Vec<u64>,
        declared: Vec<DependencyFingerprint>,
        conservative: Vec<DependencyFingerprint>,
        scope_strategy: crate::model::ClaimScopeStrategy,
        revision: &str,
        reads: &Vec<crate::reconcile::LocationRead>,
    ) -> (r: Result<Claim, WorkspaceError>)
        requires
            old(self).wf(),
            first_missing(old(self).projection().observations, supporting_observation_ids@) is None
                && first_invalid_path(declared@) is None ==> reads@.len() == claim_inputs_spec(
                old(self).projection().observations,
                supporting_observation_ids@,
                declared@,
                siblings_in_scope(scope_strategy, conservative@),
            ).len(),
        ensures
            final(self).wf(),
            claim_recording(
                *old(self),
                *final(self),
                statement@,
                supporting_observation_ids@,
                declared@,
                siblings_in_scope(scope_strategy, conservative@),
                scope_strategy,
                revision@,
                reads@,
                r,
            ),
    {
        if is_blank(statement.as_str()) {
            return Err(WorkspaceError::InvalidClaim("statement must not be empty".to_owned()));
        }
        if supporting_observation_ids.len() == 0 {
            return Err(
                WorkspaceError::InvalidClaim(
                    "at least one supporting observation is required".to_owned(),
                ),
            );
        }
        let ghost ids = supporting_observation_ids@;
        let ghost p = self.projection();
        let mut i: usize = 0;
        assert(ids.skip(0) =~= ids);
        while i < supporting_observation_ids.len()
            invariant
                self.wf(),
                self == old(self),
                p == self.projection(),
                i <= ids.len(),
                ids == supporting_observation_ids@,
                forall|j: int| 0 <= j < i ==> p.observations.contains_key(#[trigger] ids[j]),
                first_missing(p.observations, ids) == first_missing(p.observations, ids.skip(i as int)),
                !is_blank_spec(statement@),
                ids.len() > 0,
            decreases ids.len() - i,
        {
            let id = supporting_observation_ids[i];
            proof {
                assert(ids.skip(i as int)[0] == id);
                assert(ids.skip(i as int).drop_first() =~= ids.skip(i + 1));
            }
            if self.observation_at(id).is_none() {
                return Err(WorkspaceError::ObservationNotFound(id));
            }
            i = i + 1;
        }
        let ghost dv = declared@;
        let mut j: usize = 0;
        assert(dv.skip(0) =~= dv);
        while j < declared.len()
            invariant
                self.wf(),
                self == old(self),
                j <= dv.len(),
                dv == declared@,
                first_invalid_path(dv) == first_invalid_path(dv.skip(j as int)),
                first_missing(p.observations, ids) is None,
                p == self.projection(),
                !is_blank_spec(statement@),
                ids.len() > 0,
                ids == supporting_observation_ids@,
            decreases dv.len() - j,
        {
            proof {
                assert(dv.skip(j as int)[0] == declared@[j as int]);
                assert(dv.skip(j as int).drop_first() =~= dv.skip(j + 1));
            }
            match crate::paths::validate_relative_path(declared[j].path.as_str()) {
                Ok(_) => {},
                Err(e) => {
                    return Err(e);
                },
            }
            j = j + 1;
        }
        let mut inputs: Vec<crate::model::ClaimInput> = Vec::new();
        assert(crate::model::inputs_view(inputs@) =~= Seq::<crate::model::ClaimInputView>::empty());
        insert_supporting(&mut inputs, &self.state, &supporting_observation_ids);
        insert_dependencies(&mut inputs, &declared, crate::model::ClaimInputSource::DeclaredDependency);
        if scope_strategy == crate::model::ClaimScopeStrategy::ConservativeSiblingFiles {
            insert_dependencies(
                &mut inputs,
                &conservative,
                crate::model::ClaimInputSource::ConservativeDependency,
            );
        } else {
            proof {
                let e = Seq::<DependencyFingerprint>::empty();
                assert(e.map_values(
                    |d: DependencyFingerprint| dependency_input(d, crate::model::ClaimInputSource::ConservativeDependency),
                ) =~= Seq::<crate::model::ClaimInputView>::empty());
            }
        }
        let (freshness, reason, fingerprint_inputs) = crate::reconcile::assess_claim_inputs(&inputs, reads);
        let reconciliation_fingerprint = crate::reconcile::scoped_reconciliation_fingerprint(
            revision,
            &fingerprint_inputs,
        );
        let claim_id = self.state.next_claim_id;
        let event = Event::ClaimRecorded {
            claim_id,
            statement,
            supporting_observation_ids,
            scope_strategy,
            inputs,
            freshness,
            reason,
            reconciliation_fingerprint,
        };
        let ghost before = *self;
        match self.append(event) {
            Ok(()) => {
                proof {
                    assert(self.records().drop_last() =~= before.records());
                }
                match self.claim_at(claim_id) {
                    Some(c) => Ok(c),
                    None => Err(WorkspaceError::ClaimNotFound(claim_id)),
                }
            },
            Err(e) => {
                proof {
                    before.lemma_wf();
                }
                Err(e)
            },
        }
    }
}

proof fn lemma_first_missing_none(obs: Map<u64, ObservationView>, ids: Seq<u64>, i: int)
    requires
        first_missing(obs, ids) is None,
        0 <= i < ids.len(),
    ensures
        obs.contains_key(ids[i]),
    decreases i,
{
    if i > 0 {
        lemma_first_missing_none(obs, ids.drop_first(), i - 1);
        assert(ids.drop_first()[i - 1] == ids[i]);
    }
}

impl Workspace {
    /// The inputs a claim resting on these observations and dependencies
    /// binds, in the order its record lists them: what a caller re-reads to
    /// hand the recording its reads. Unknown observations are skipped.
    pub fn planned_claim_inputs(
        &self,
        supporting_observation_ids: &Vec<u64>,
        declared: &Vec<DependencyFingerprint>,
        conservative: &Vec<DependencyFingerprint>,
        scope_strategy: crate::model::ClaimScopeStrategy,
    ) -> (r: Vec<crate::model::ClaimInput>)
        requires
            self.wf(),
        ensures
            first_missing(self.projection().observations, supporting_observation_ids@) is None
                ==> crate::model::inputs_view(r@) == claim_inputs_spec(
                self.projection().observations,
                supporting_observation_ids@,
                declared@,
                siblings_in_scope(scope_strategy, conservative@),
            ),
    {
        let mut ids: Vec<u64> = Vec::new();
        let mut i: usize = 0;
        while i < supporting_observation_ids.len()
            invariant
                self.wf(),
                i <= supporting_observation_ids@.len(),
                forall|k: int| 0 <= k < ids@.len() ==> self.projection().observations.contains_key(#[trigger] ids@[k]),
                first_missing(self.projection().observations, supporting_observation_ids@) is None
                    ==> ids@ == supporting_observation_ids@.take(i as int),
            decreases supporting_observation_ids@.len() - i,
        {
            let id = supporting_observation_ids[i];
            proof {
                if first_missing(self.projection().observations, supporting_observation_ids@) is None {
                    lemma_first_missing_none(self.projection().observations, supporting_observation_ids@, i as int);
                }
            }
            if self.observation_at(id).is_some() {
                ids.push(id);
            }
            proof {
                if first_missing(self.projection().observations, supporting_observation_ids@) is None {
                    assert(ids@ =~= supporting_observation_ids@.take(i as int + 1));
                }
            }
            i = i + 1;
        }
        proof {
            if first_missing(self.projection().observations, supporting_observation_ids@) is None {
                assert(ids@ =~= supporting_observation_ids@);
            }
        }
        let mut inputs: Vec<crate::model::ClaimInput> = Vec::new();
        assert(crate::model::inputs_view(inputs@) =~= Seq::<crate::model::ClaimInputView>::empty());
        insert_supporting(&mut inputs, &self.state, &ids);
        insert_dependencies(&mut inputs, declared, crate::model::ClaimInputSource::DeclaredDependency);
        if scope_strategy == crate::model::ClaimScopeStrategy::ConservativeSiblingFiles {
            insert_dependencies(&mut inputs, conservative, crate::model::ClaimInputSource::ConservativeDependency);
        } else {
            proof {
                let e = Seq::<DependencyFingerprint>::empty();
                assert(e.map_values(
                    |d: DependencyFingerprint| dependency_input(d, crate::model::ClaimInputSource::ConservativeDependency),
                ) =~= Seq::<crate::model::ClaimInputView>::empty());
            }
        }
        inputs
    }
}

impl Workspace {
    /// Record a claim under the declared scope: its supporting
    /// observations and declared dependencies only.
    pub fn record_claim(
        &mut self,
        statement: String,
        supporting_observation_ids: Vec<u64>,
        declared: Vec<DependencyFingerprint>,
        revision: &str,
        reads: &Vec<crate::reconcile::LocationRead>,
    ) -> (r: Result<Claim, WorkspaceError>)
        requires
            old(self).wf(),
            first_missing(old(self).projection().observations, supporting_observation_ids@) is None
                && first_invalid_path(declared@) is None ==> reads@.len() == claim_inputs_spec(
                old(self).projection().observations,
                supporting_observation_ids@,
                declared@,
                Seq::empty(),
            ).len(),
        ensures
            final(self).wf(),
            claim_recording(
                *old(self),
                *final(self),
                statement@,
                supporting_observation_ids@,
                declared@,
                Seq::empty(),
                crate::model::ClaimScopeStrategy::Declared,
                revision@,
                reads@,
                r,
            ),
    {
        self.record_claim_with_scope(
            statement,
            supporting_observation_ids,
            declared,
            Vec::new(),
            crate::model::ClaimScopeStrategy::Declared,
            revision,
            reads,
        )
    }
}

// ---------------------------------------------------------------------------
// Capturing observations and findings.
/// The largest native payload the workspace retains.
pub const MAX_RETAINED_PAYLOAD_BYTES: usize = 1048576;

pub open spec fn oversize_message(len: nat, what: Seq<char>) -> Seq<char> {
    crate::text::decimal(len) + what + crate::text::decimal(MAX_RETAINED_PAYLOAD_BYTES as nat)
        + "-byte retention limit"@
}

fn oversize_message_exec(len: usize, what: &str) -> (r: String)
    ensures
        r@ == oversize_message(len as nat, what@),
{
    let mut m = String::new();
    crate::text::push_decimal(&mut m, len as u64);
    m.append(what);
    crate::text::push_decimal(&mut m, MAX_RETAINED_PAYLOAD_BYTES as u64);
    m.append("-byte retention limit");
    m
}

/// Whether a payload of `len` bytes may be retained.
pub fn check_payload_size(len: usize, what: &str) -> (r: Result<(), String>)
    ensures
        len <= MAX_RETAINED_PAYLOAD_BYTES <==> r is Ok,
        r matches Err(m) ==> m@ == oversize_message(len as nat, what@),
{
    if len > MAX_RETAINED_PAYLOAD_BYTES {
        Err(oversize_message_exec(len, what))
    } else {
        Ok(())
    }
}

pub open spec fn expected_mismatch(unit: Seq<u8>, expected: Option<Seq<char>>) -> Option<Seq<char>> {
    match expected {
        None => None,
        Some(e) => if !crate::digest::is_sha256_hex_spec(e) {
            Some("expected raw fingerprint must be a lowercase SHA-256 hex digest"@)
        } else if crate::digest::hex_digest_spec(unit) != e {
            Some("selected input changed after the provider result was finalized"@)
        } else {
            None
        },
    }
}

/// Why a capture is refused before anything is recorded, if it is: the
/// message of the invalid-observation error, or `None`.
pub open spec fn capture_refusal(
    container: Seq<u8>,
    options: crate::model::ObservationCaptureOptions,
) -> Option<Seq<char>> {
    match crate::reconcile::select_unit_spec(container, options.selector) {
        Err(m) => Some(m),
        Ok(unit) => match expected_mismatch(unit, crate::model::opt_str(options.expected_raw_fingerprint)) {
            Some(m) => Some(m),
            None => if !vstd::utf8::valid_utf8(unit) {
                Some("selected source is not valid UTF-8"@)
            } else if options.retain_native_payload && container.len() > MAX_RETAINED_PAYLOAD_BYTES {
                Some(oversize_message(container.len(), "-byte payload exceeds the "@))
            } else {
                None
            },
        },
    }
}

/// Check a file capture before anything is retained or recorded: the path,
/// the selected unit, the expected raw fingerprint, UTF-8, and the size of a
/// payload to retain, refused as recording the capture would refuse them.
pub fn check_capture(path: &str, options: &crate::model::ObservationCaptureOptions, container: &[u8]) -> (r: Result<
    (),
    WorkspaceError,
>)
    ensures
        !crate::paths::is_relative_path(path@) ==> (r matches Err(WorkspaceError::InvalidPath(m)) && m@ == path@),
        crate::paths::is_relative_path(path@) ==> match capture_refusal(container@, *options) {
            Some(m) => r matches Err(WorkspaceError::InvalidObservation(e)) && e@ == m,
            None => r is Ok,
        },
{
    match crate::paths::validate_relative_path(path) {
        Ok(_) => {},
        Err(e) => {
            return Err(e);
        },
    }
    let unit = match crate::reconcile::select_observation_unit(container, &options.selector) {
        Ok(u) => u,
        Err(e) => {
            return Err(e);
        },
    };
    match &options.expected_raw_fingerprint {
        Some(expected) => {
            if !crate::digest::is_sha256_hex(expected.as_str()) {
                return Err(
                    WorkspaceError::InvalidObservation(
                        "expected raw fingerprint must be a lowercase SHA-256 hex digest".to_owned(),
                    ),
                );
            }
            let raw = crate::digest::hex_digest(unit.as_slice());
            if !crate::text::str_equal(raw.as_str(), expected.as_str()) {
                return Err(
                    WorkspaceError::InvalidObservation(
                        "selected input changed after the provider result was finalized".to_owned(),
                    ),
                );
            }
        },
        None => {},
    }
    match crate::text::string_from_utf8(crate::reconcile::copy_bytes(&unit)) {
        Some(_) => {},
        None => {
            return Err(WorkspaceError::InvalidObservation("selected source is not valid UTF-8".to_owned()));
        },
    }
    if options.retain_native_payload {
        match check_payload_size(container.len(), "-byte payload exceeds the ") {
            Ok(()) => {},
            Err(m) => {
                return Err(WorkspaceError::InvalidObservation(m));
            },
        }
    }
    Ok(())
}

pub open spec fn opt_canonical(canonical: Option<&Vec<u8>>) -> Option<Seq<u8>> {
    match canonical {
        Some(c) => Some(c@),
        None => None,
    }
}

/// What recording an observation of a repository file leaves: an invalid
/// path or a refused capture changes nothing and says why; otherwise the
/// observation is recorded as read.
pub open spec fn file_capture_outcome(
    old: Workspace,
    new: Workspace,
    path: &str,
    provider: String,
    options: crate::model::ObservationCaptureOptions,
    container: &[u8],
    canonical: Option<&Vec<u8>>,
    git_revision: String,
    native_payload_reference: Option<String>,
    r: Result<crate::model::ObservationCapture, WorkspaceError>,
) -> bool {
    &&& (!crate::paths::is_relative_path(path@) ==> new.records() == old.records() && (
            r matches Err(WorkspaceError::InvalidPath(m)) && m@ == path@))
    &&& (crate::paths::is_relative_path(path@) && capture_refusal(container@, options) is Some ==> new.records() == old.records() && (r matches Err(WorkspaceError::InvalidObservation(m))
                && m@ == capture_refusal(container@, options)->0))
    &&& (crate::paths::is_relative_path(path@) && capture_refusal(container@, options) is None ==> match r {
                Ok(cap) => {
                    let p = old.projection();
                    let unit = crate::reconcile::select_unit_spec(container@, options.selector)->Ok_0;
                    let input = crate::digest::hex_digest_spec(
                        crate::reconcile::normalized_spec(unit, options.normalizer, opt_canonical(canonical)),
                    );
                    let o = cap.observation@;
                    &&& new.records().len() == old.records().len() + 1
                    &&& new.records().drop_last() == old.records()
                    &&& new.records().last().event is ObservationRecorded
                    &&& o == new.projection().observations[p.next_observation_id]
                    &&& o.id == p.next_observation_id
                    &&& o.path == path@
                    &&& o.provider == provider@
                    &&& o.observed_revision == git_revision@
                    &&& o.selector == options.selector
                    &&& o.normalizer == options.normalizer
                    &&& o.observed_input_fingerprint == input
                    &&& o.observed_raw_fingerprint == if options.normalizer == crate::model::Normalizer::Raw {
                        None
                    } else {
                        Some(crate::digest::hex_digest_spec(unit))
                    }
                    &&& o.observed_container_fingerprint == crate::digest::hex_digest_spec(container@)
                    &&& o.native_payload_reference == if options.retain_native_payload {
                        crate::model::opt_str(native_payload_reference)
                    } else {
                        None
                    }
                    &&& o.ingested_bytes == unit.len()
                    &&& o.model_visible_bytes == options.model_visible_bytes
                    &&& o.report.freshness_within_scope == crate::model::FreshnessWithinScope::Current
                    &&& o.report.operational_coverage.reconciliation_fingerprint
                        == crate::digest::hex_digest_spec(
                        crate::reconcile::observation_material(
                            git_revision@,
                            path@,
                            options.selector,
                            Some(input),
                            Some(crate::digest::hex_digest_spec(container@)),
                        ),
                    )
                    &&& crate::text::utf8(cap.content@) == unit
                },
                Err(e) => e is CorruptLog && new.records() == old.records() && (old.projection().next_sequence
                    == u64::MAX || old.projection().next_observation_id == u64::MAX),
            })
}

impl Workspace {
    /// Record an observation of a repository file: the selected unit of the
    /// container as read, fingerprinted (in the normalizer's canonical form
    /// when the formatter produced one), at `git_revision`, with the native
    /// payload reference when one was retained.
    #[verifier::rlimit(60)]
    pub fn capture_file_observation(
        &mut self,
        path: &str,
        provider: String,
        options: crate::model::ObservationCaptureOptions,
        container: &[u8],
        canonical: Option<&Vec<u8>>,
        git_revision: String,
        native_payload_reference: Option<String>,
    ) -> (r: Result<crate::model::ObservationCapture, WorkspaceError>)
        requires
            old(self).wf(),
        ensures
            final(self).wf(),
            file_capture_outcome(
                *old(self),
                *final(self),
                path,
                provider,
                options,
                container,
                canonical,
                git_revision,
                native_payload_reference,
                r,
            ),
    {
        let path = match crate::paths::validate_relative_path(path) {
            Ok(p) => p,
            Err(e) => {
                return Err(e);
            },
        };
        let unit = match crate::reconcile::select_observation_unit(container, &options.selector) {
            Ok(u) => u,
            Err(e) => {
                return Err(e);
            },
        };
        match &options.expected_raw_fingerprint {
            Some(expected) => {
                if !crate::digest::is_sha256_hex(expected.as_str()) {
                    return Err(
                        WorkspaceError::InvalidObservation(
                            "expected raw fingerprint must be a lowercase SHA-256 hex digest".to_owned(),
                        ),
                    );
                }
                let raw = crate::digest::hex_digest(unit.as_slice());
                if !crate::text::str_equal(raw.as_str(), expected.as_str()) {
                    return Err(
                        WorkspaceError::InvalidObservation(
                            "selected input changed after the provider result was finalized".to_owned(),
                        ),
                    );
                }
            },
            None => {},
        }
        let content = match crate::text::string_from_utf8(crate::reconcile::copy_bytes(&unit)) {
            Some(c) => c,
            None => {
                return Err(
                    WorkspaceError::InvalidObservation("selected source is not valid UTF-8".to_owned()),
                );
            },
        };
        let (input_fingerprint, raw_fingerprint, container_fingerprint) =
            crate::reconcile::capture_fingerprints(unit.as_slice(), container, options.normalizer, canonical);
        let native_payload_reference = if options.retain_native_payload {
            match check_payload_size(container.len(), "-byte payload exceeds the ") {
                Ok(()) => native_payload_reference,
                Err(m) => {
                    return Err(WorkspaceError::InvalidObservation(m));
                },
            }
        } else {
            None
        };
        let reconciliation_fingerprint = crate::reconcile::observation_reconciliation_fingerprint(
            git_revision.as_str(),
            path.as_str(),
            &options.selector,
            Some(input_fingerprint.as_str()),
            Some(container_fingerprint.as_str()),
        );
        let observation_id = self.state.next_observation_id;
        let event = Event::ObservationRecorded {
            observation_id,
            path,
            provider,
            git_revision,
            selector: options.selector,
            normalizer: options.normalizer,
            input_fingerprint,
            raw_fingerprint,
            container_fingerprint: Some(container_fingerprint),
            native_payload_reference,
            ingested_bytes: unit.len(),
            model_visible_bytes: options.model_visible_bytes,
            reconciliation_fingerprint,
        };
        let ghost before = *self;
        match self.append(event) {
            Ok(()) => {
                proof {
                    assert(self.records().drop_last() =~= before.records());
                }
                match self.observation_at(observation_id) {
                    Some(o) => Ok(crate::model::ObservationCapture { observation: o, content }),
                    None => Err(WorkspaceError::ObservationNotFound(observation_id)),
                }
            },
            Err(e) => {
                proof {
                    before.lemma_wf();
                }
                Err(e)
            },
        }
    }
}

impl Workspace {
    /// Record a provider-reported finding bound to a repository location:
    /// the location is fingerprinted from the container as read, the
    /// provider's raw output (when given) is bound by its digest and the
    /// reference it was retained under. The finding enters open and current.
    #[verifier::rlimit(60)]
    pub fn record_finding(
        &mut self,
        provider: String,
        severity: crate::model::FindingSeverity,
        rule: Option<String>,
        message: String,
        path: &str,
        options: crate::model::FindingCaptureOptions,
        container: &[u8],
        canonical: Option<&Vec<u8>>,
        git_revision: String,
        native_payload_reference: Option<String>,
    ) -> (r: Result<Finding, WorkspaceError>)
        requires
            old(self).wf(),
        ensures
            final(self).wf(),
            ({
                let unit = crate::reconcile::select_unit_spec(container@, options.selector);
                if is_blank_spec(message@) {
                    final(self).records() == old(self).records() && (r matches Err(
                        WorkspaceError::InvalidFinding(m),
                    ) && m@ == "finding message must not be empty"@)
                } else if !crate::paths::is_relative_path(path@) {
                    final(self).records() == old(self).records() && (r matches Err(
                        WorkspaceError::InvalidPath(m),
                    ) && m@ == path@)
                } else if unit is Err {
                    final(self).records() == old(self).records() && (r matches Err(
                        WorkspaceError::InvalidObservation(m),
                    ) && m@ == unit->Err_0)
                } else if options.native_payload matches Some(np) && crate::text::utf8(np@).len()
                    > MAX_RETAINED_PAYLOAD_BYTES {
                    final(self).records() == old(self).records() && (r matches Err(
                        WorkspaceError::InvalidFinding(m),
                    ) && m@ == oversize_message(
                        crate::text::utf8(options.native_payload->0@).len(),
                        "-byte native payload exceeds the "@,
                    ))
                } else {
                    match r {
                        Ok(f) => {
                            let p = old(self).projection();
                            let u = unit->Ok_0;
                            let input = crate::digest::hex_digest_spec(
                                crate::reconcile::normalized_spec(u, options.normalizer, opt_canonical(canonical)),
                            );
                            &&& final(self).records().len() == old(self).records().len() + 1
                            &&& final(self).records().drop_last() == old(self).records()
                            &&& final(self).records().last().event is FindingRecorded
                            &&& f@ == final(self).projection().findings[p.next_finding_id]
                            &&& f@.id == p.next_finding_id
                            &&& f@.provider == provider@
                            &&& f@.severity == severity
                            &&& f@.rule == crate::model::opt_str(rule)
                            &&& f@.message == message@
                            &&& f@.path == path@
                            &&& f@.selector == options.selector
                            &&& f@.normalizer == options.normalizer
                            &&& f@.observed_revision == git_revision@
                            &&& f@.observed_input_fingerprint == input
                            &&& f@.observed_raw_fingerprint == if options.normalizer == crate::model::Normalizer::Raw {
                                None
                            } else {
                                Some(crate::digest::hex_digest_spec(u))
                            }
                            &&& f@.observed_container_fingerprint == crate::digest::hex_digest_spec(container@)
                            &&& f@.native_payload_fingerprint == match options.native_payload {
                                Some(np) => Some(crate::digest::hex_digest_spec(crate::text::utf8(np@))),
                                None => None,
                            }
                            &&& f@.native_payload_reference == match options.native_payload {
                                Some(_) => crate::model::opt_str(native_payload_reference),
                                None => None,
                            }
                            &&& f@.disposition is Open
                            &&& f@.report.freshness_within_scope == crate::model::FreshnessWithinScope::Current
                            &&& f@.report.reason == "finding recorded"@
                            &&& f@.report.operational_coverage.reconciliation_fingerprint
                                == crate::digest::hex_digest_spec(
                                crate::reconcile::observation_material(
                                    git_revision@,
                                    path@,
                                    options.selector,
                                    Some(input),
                                    Some(crate::digest::hex_digest_spec(container@)),
                                ),
                            )
                        },
                        Err(e) => e is CorruptLog && final(self).records() == old(self).records() && (old(
                            self,
                        ).projection().next_sequence == u64::MAX || old(self).projection().next_finding_id
                            == u64::MAX),
                    }
                }
            }),
    {
        if is_blank(message.as_str()) {
            return Err(WorkspaceError::InvalidFinding("finding message must not be empty".to_owned()));
        }
        let path = match crate::paths::validate_relative_path(path) {
            Ok(p) => p,
            Err(e) => {
                return Err(e);
            },
        };
        let unit = match crate::reconcile::select_observation_unit(container, &options.selector) {
            Ok(u) => u,
            Err(e) => {
                return Err(e);
            },
        };
        let (input_fingerprint, raw_fingerprint, container_fingerprint) =
            crate::reconcile::capture_fingerprints(unit.as_slice(), container, options.normalizer, canonical);
        let (native_payload_reference, native_payload_fingerprint) = match &options.native_payload {
            Some(payload) => {
                let n = crate::text::utf8_len(payload.as_str());
                match check_payload_size(n, "-byte native payload exceeds the ") {
                    Ok(()) => {},
                    Err(m) => {
                        return Err(WorkspaceError::InvalidFinding(m));
                    },
                }
                let bytes = crate::text::str_bytes(payload.as_str());
                (native_payload_reference, Some(crate::digest::hex_digest(bytes.as_slice())))
            },
            None => (None, None),
        };
        let reconciliation_fingerprint = crate::reconcile::observation_reconciliation_fingerprint(
            git_revision.as_str(),
            path.as_str(),
            &options.selector,
            Some(input_fingerprint.as_str()),
            Some(container_fingerprint.as_str()),
        );
        let finding_id = self.state.next_finding_id;
        let event = Event::FindingRecorded {
            finding_id,
            provider,
            severity,
            rule,
            message,
            path,
            selector: options.selector,
            normalizer: options.normalizer,
            git_revision,
            input_fingerprint,
            raw_fingerprint,
            container_fingerprint,
            native_payload_reference,
            native_payload_fingerprint,
            freshness: crate::model::FreshnessWithinScope::Current,
            reason: "finding recorded".to_owned(),
            reconciliation_fingerprint,
        };
        let ghost before = *self;
        match self.append(event) {
            Ok(()) => {
                proof {
                    assert(self.records().drop_last() =~= before.records());
                }
                match self.finding_at(finding_id) {
                    Some(f) => Ok(f),
                    None => Err(WorkspaceError::FindingNotFound(finding_id)),
                }
            },
            Err(e) => {
                proof {
                    before.lemma_wf();
                }
                Err(e)
            },
        }
    }

    /// The number the next recorded observation will carry.
    pub fn next_observation_id(&self) -> (r: u64)
        requires
            self.wf(),
        ensures
            r == self.projection().next_observation_id,
    {
        self.state.next_observation_id
    }

    /// The newest observation of `path` among those numbered below `bound`.
    pub(crate) fn newest_observation_below(&self, path: &str, bound: u64) -> (r: Option<Observation>)
        requires
            self.wf(),
        ensures
            match r {
                Some(o) => crate::belief::newest_below(self.projection().observations, path@, bound as int, o@.id)
                    && o@ == self.projection().observations[o@.id],
                None => forall|id: u64|
                    #[trigger] self.projection().observations.contains_key(id)
                        && self.projection().observations[id].path == path@ ==> id >= bound,
            },
    {
        let obs = &self.state.observations;
        let ghost sv = vseq(obs@);
        assert(self.projection().observations == crate::store::to_map::<Observation>(sv));
        let mut i = obs.len();
        while i > 0
            invariant
                i <= obs@.len(),
                self.wf(),
                obs@ == self.state.observations@,
                sv == vseq(obs@),
                self.projection().observations == crate::store::to_map::<Observation>(sv),
                crate::store::keys_increasing::<Observation>(sv),
                forall|k: int| i <= k < obs@.len() ==> (#[trigger] sv[k]).path != path@ || sv[k].id >= bound,
            decreases i,
        {
            let o = &obs[i - 1];
            if o.id < bound && crate::text::str_equal(o.path.as_str(), path) {
                let c = o.clone();
                proof {
                    assert(sv[i - 1] == o@);
                    crate::store::lemma_to_map_index::<Observation>(sv, i - 1);
                    assert forall|id: u64|
                        #[trigger] self.projection().observations.contains_key(id)
                            && self.projection().observations[id].path == path@ && id < bound implies id <= c@.id by {
                        crate::store::lemma_to_map_dom::<Observation>(sv, id);
                        let k = choose|k: int| 0 <= k < sv.len() && Observation::key_of(#[trigger] sv[k]) == id;
                        crate::store::lemma_to_map_index::<Observation>(sv, k);
                        if k > i - 1 {
                            assert(sv[k].path != path@ || sv[k].id >= bound);
                        }
                    }
                }
                return Some(c);
            }
            i = i - 1;
        }
        proof {
            assert forall|id: u64|
                #[trigger] self.projection().observations.contains_key(id)
                    && self.projection().observations[id].path == path@ implies id >= bound by {
                crate::store::lemma_to_map_dom::<Observation>(sv, id);
                let k = choose|k: int| 0 <= k < sv.len() && Observation::key_of(#[trigger] sv[k]) == id;
                crate::store::lemma_to_map_index::<Observation>(sv, k);
            }
        }
        None
    }

    /// The newest observation recorded for `path`, if any.
    pub fn freshest_observation(&self, path: &str) -> (r: Option<Observation>)
        requires
            self.wf(),
        ensures
            match r {
                Some(o) => self.projection().observations.contains_key(o@.id) && o@
                    == self.projection().observations[o@.id] && o@.path == path@ && forall|id: u64|
                    #[trigger] self.projection().observations.contains_key(id)
                        && self.projection().observations[id].path == path@ ==> id <= o@.id,
                None => forall|id: u64|
                    #[trigger] self.projection().observations.contains_key(id)
                        ==> self.projection().observations[id].path != path@,
            },
    {
        let obs = &self.state.observations;
        let ghost sv = vseq(obs@);
        assert(self.projection().observations == crate::store::to_map::<Observation>(sv));
        let mut i = obs.len();
        while i > 0
            invariant
                i <= obs@.len(),
                self.wf(),
                obs@ == self.state.observations@,
                sv == vseq(obs@),
                self.projection().observations == crate::store::to_map::<Observation>(sv),
                crate::store::keys_increasing::<Observation>(sv),
                forall|k: int| i <= k < obs@.len() ==> (#[trigger] sv[k]).path != path@,
            decreases i,
        {
            let o = &obs[i - 1];
            if crate::text::str_equal(o.path.as_str(), path) {
                let c = o.clone();
                proof {
                    assert(sv[i - 1] == o@);
                    crate::store::lemma_to_map_index::<Observation>(sv, i - 1);
                    assert forall|id: u64|
                        #[trigger] self.projection().observations.contains_key(id)
                            && self.projection().observations[id].path == path@ implies id <= c@.id by {
                        crate::store::lemma_to_map_dom::<Observation>(sv, id);
                        let k = choose|k: int| 0 <= k < sv.len() && Observation::key_of(#[trigger] sv[k]) == id;
                        crate::store::lemma_to_map_index::<Observation>(sv, k);
                        if k > i - 1 {
                            assert(sv[k].path != path@);
                        }
                    }
                }
                return Some(c);
            }
            i = i - 1;
        }
        proof {
            assert forall|id: u64|
                #[trigger] self.projection().observations.contains_key(id) implies self.projection().observations[id].path
                    != path@ by {
                crate::store::lemma_to_map_dom::<Observation>(sv, id);
                let k = choose|k: int| 0 <= k < sv.len() && Observation::key_of(#[trigger] sv[k]) == id;
                crate::store::lemma_to_map_index::<Observation>(sv, k);
            }
        }
        None
    }
}

} // verus!

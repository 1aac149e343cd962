//! The projection: workspace state materialized by replaying the event log.
//! Replay validates every record, so a log that breaks an invariant (a gap in
//! the sequence, a duplicate id, a dangling reference, an unsafe lifecycle
//! transition) is reported as corrupt rather than silently projected.

use vstd::prelude::*;

use crate::error::{error_is, ReplayError, WorkspaceError};
use crate::event::{same_event, Event, EventRecord, EVENT_SCHEMA_VERSION, MINIMUM_EVENT_SCHEMA_VERSION};
use crate::model::{clone_opt_objective, inputs_equal, units_view, ClaimInput, ClaimInputView, ClaimLifecycle, ClaimLifecycleView, ClaimScopeStrategy, ClaimView, Claim, CheckpointMarker, CheckpointMarkerView, Evidence, EvidenceOutcome, EvidenceView, Finding, FindingDisposition, FindingDispositionView, FindingSeverity, FindingView, FreshnessReport, FreshnessReportView, FreshnessWithinScope, MediatedUnit, MediatedUnitView, Mutation, Normalizer, Objective, ObjectiveView, Observation, ObservationSelector, ObservationView, OperationalCoverage, OperationalCoverageView, ScopeAssurance, ScopeCompleteness, ScopeSource, Transaction, TransactionState, TransactionView, WorkingSetEntry, WorkingSetEntryView, inputs_view, opt_objective, opt_str, report_with_verdict};
use crate::store::{find_index, insert_sorted, keys_increasing, replace_at, to_map, vseq, KeyOf};
use crate::text::{push_decimal, strings_view};

verus! {

impl KeyOf for Observation {
    open spec fn key_of(v: ObservationView) -> u64 {
        v.id
    }

    fn exec_key(&self) -> (r: u64) {
        self.id
    }
}

impl KeyOf for Claim {
    open spec fn key_of(v: ClaimView) -> u64 {
        v.id
    }

    fn exec_key(&self) -> (r: u64) {
        self.id
    }
}

impl KeyOf for Evidence {
    open spec fn key_of(v: EvidenceView) -> u64 {
        v.id
    }

    fn exec_key(&self) -> (r: u64) {
        self.id
    }
}

impl KeyOf for Finding {
    open spec fn key_of(v: FindingView) -> u64 {
        v.id
    }

    fn exec_key(&self) -> (r: u64) {
        self.id
    }
}

impl KeyOf for Transaction {
    open spec fn key_of(v: TransactionView) -> u64 {
        v.id
    }

    fn exec_key(&self) -> (r: u64) {
        self.id
    }
}

impl KeyOf for WorkingSetEntry {
    open spec fn key_of(v: WorkingSetEntryView) -> u64 {
        v.observation_id
    }

    fn exec_key(&self) -> (r: u64) {
        self.observation_id
    }
}

pub struct Projection {
    pub objective: Option<Objective>,
    pub working_set: Vec<WorkingSetEntry>,
    /// Ordered focus history, one entry per focus event, revisits included.
    pub navigation_trail: Vec<WorkingSetEntry>,
    pub next_focus_ordinal: u64,
    pub observations: Vec<Observation>,
    pub claims: Vec<Claim>,
    pub evidence: Vec<Evidence>,
    pub findings: Vec<Finding>,
    pub transactions: Vec<Transaction>,
    pub checkpoints: Vec<CheckpointMarker>,
    pub next_observation_id: u64,
    pub next_claim_id: u64,
    pub next_evidence_id: u64,
    pub next_finding_id: u64,
    pub next_transaction_id: u64,
    pub next_sequence: u64,
    /// How many observations have been recorded since the most recent claim.
    pub observations_since_last_claim: u64,
}

pub struct ProjectionView {
    pub objective: Option<ObjectiveView>,
    pub working_set: Map<u64, WorkingSetEntryView>,
    pub navigation_trail: Seq<WorkingSetEntryView>,
    pub next_focus_ordinal: u64,
    pub observations: Map<u64, ObservationView>,
    pub claims: Map<u64, ClaimView>,
    pub evidence: Map<u64, EvidenceView>,
    pub findings: Map<u64, FindingView>,
    pub transactions: Map<u64, TransactionView>,
    pub checkpoints: Seq<CheckpointMarkerView>,
    pub next_observation_id: u64,
    pub next_claim_id: u64,
    pub next_evidence_id: u64,
    pub next_finding_id: u64,
    pub next_transaction_id: u64,
    pub next_sequence: u64,
    pub observations_since_last_claim: u64,
}

impl View for Projection {
    type V = ProjectionView;

    open spec fn view(&self) -> ProjectionView {
        ProjectionView {
            objective: opt_objective(self.objective),
            working_set: to_map::<WorkingSetEntry>(vseq(self.working_set@)),
            navigation_trail: vseq(self.navigation_trail@),
            next_focus_ordinal: self.next_focus_ordinal,
            observations: to_map::<Observation>(vseq(self.observations@)),
            claims: to_map::<Claim>(vseq(self.claims@)),
            evidence: to_map::<Evidence>(vseq(self.evidence@)),
            findings: to_map::<Finding>(vseq(self.findings@)),
            transactions: to_map::<Transaction>(vseq(self.transactions@)),
            checkpoints: vseq(self.checkpoints@),
            next_observation_id: self.next_observation_id,
            next_claim_id: self.next_claim_id,
            next_evidence_id: self.next_evidence_id,
            next_finding_id: self.next_finding_id,
            next_transaction_id: self.next_transaction_id,
            next_sequence: self.next_sequence,
            observations_since_last_claim: self.observations_since_last_claim,
        }
    }
}

/// The projection of an empty log.
pub open spec fn empty_projection() -> ProjectionView {
    ProjectionView {
        objective: None,
        working_set: Map::empty(),
        navigation_trail: Seq::empty(),
        next_focus_ordinal: 0,
        observations: Map::empty(),
        claims: Map::empty(),
        evidence: Map::empty(),
        findings: Map::empty(),
        transactions: Map::empty(),
        checkpoints: Seq::empty(),
        next_observation_id: 0,
        next_claim_id: 0,
        next_evidence_id: 0,
        next_finding_id: 0,
        next_transaction_id: 0,
        next_sequence: 0,
        observations_since_last_claim: 0,
    }
}

pub open spec fn view_wf(p: ProjectionView) -> bool {
    &&& p.next_focus_ordinal <= p.next_sequence
    &&& p.observations_since_last_claim <= p.next_sequence
    &&& ids_below_next(p)
}

/// Every recorded entity's id lies below the next id of its kind, so the
/// next id names no recorded entity.
pub open spec fn ids_below_next(p: ProjectionView) -> bool {
    &&& forall|k: u64| #[trigger] p.observations.contains_key(k) ==> k < p.next_observation_id
    &&& forall|k: u64| #[trigger] p.claims.contains_key(k) ==> k < p.next_claim_id
    &&& forall|k: u64| #[trigger] p.evidence.contains_key(k) ==> k < p.next_evidence_id
    &&& forall|k: u64| #[trigger] p.findings.contains_key(k) ==> k < p.next_finding_id
    &&& forall|k: u64| #[trigger] p.transactions.contains_key(k) ==> k < p.next_transaction_id
}

impl Projection {
    pub open spec fn wf(&self) -> bool {
        &&& keys_increasing::<WorkingSetEntry>(vseq(self.working_set@))
        &&& keys_increasing::<Observation>(vseq(self.observations@))
        &&& keys_increasing::<Claim>(vseq(self.claims@))
        &&& keys_increasing::<Evidence>(vseq(self.evidence@))
        &&& keys_increasing::<Finding>(vseq(self.findings@))
        &&& keys_increasing::<Transaction>(vseq(self.transactions@))
        &&& view_wf(self@)
    }

    pub fn new() -> (r: Self)
        ensures
            r.wf(),
            r@ == empty_projection(),
    {
        let r = Projection {
            objective: None,
            working_set: Vec::new(),
            navigation_trail: Vec::new(),
            next_focus_ordinal: 0,
            observations: Vec::new(),
            claims: Vec::new(),
            evidence: Vec::new(),
            findings: Vec::new(),
            transactions: Vec::new(),
            checkpoints: Vec::new(),
            next_observation_id: 0,
            next_claim_id: 0,
            next_evidence_id: 0,
            next_finding_id: 0,
            next_transaction_id: 0,
            next_sequence: 0,
            observations_since_last_claim: 0,
        };
        assert(r@.working_set =~= Map::empty());
        assert(r@.observations =~= Map::empty());
        assert(r@.claims =~= Map::empty());
        assert(r@.evidence =~= Map::empty());
        assert(r@.findings =~= Map::empty());
        assert(r@.transactions =~= Map::empty());
        assert(r@.navigation_trail =~= Seq::empty());
        assert(r@.checkpoints =~= Seq::empty());
        r
    }
}

// ---------------------------------------------------------------------------
// The meaning of each event.
/// How complete the scope of a single-location record is asserted to be.
pub open spec fn completeness_for(selector: ObservationSelector) -> ScopeCompleteness {
    if selector == ObservationSelector::WholeFile {
        ScopeCompleteness::AssertedComplete
    } else {
        ScopeCompleteness::NotAsserted
    }
}

/// The report a record bound to one location starts with.
pub open spec fn location_report(
    path: Seq<char>,
    selector: ObservationSelector,
    fingerprint: Seq<char>,
    freshness: FreshnessWithinScope,
    reason: Seq<char>,
) -> FreshnessReportView {
    FreshnessReportView {
        freshness_within_scope: freshness,
        scope_assurance: ScopeAssurance {
            source: ScopeSource::Declared,
            completeness: completeness_for(selector),
        },
        operational_coverage: OperationalCoverageView {
            mediated_paths: seq![path],
            mediated_units: seq![MediatedUnitView { path: path, selector: selector }],
            reconciliation_fingerprint: fingerprint,
        },
        reason: reason,
    }
}

/// The coverage of a record that rests on a list of claim inputs.
pub open spec fn inputs_coverage(
    inputs: Seq<ClaimInputView>,
    fingerprint: Seq<char>,
) -> OperationalCoverageView {
    OperationalCoverageView {
        mediated_paths: inputs.map_values(|i: ClaimInputView| i.path),
        mediated_units: inputs.map_values(
            |i: ClaimInputView| MediatedUnitView { path: i.path, selector: i.selector },
        ),
        reconciliation_fingerprint: fingerprint,
    }
}

/// The next id after recording `id`.
pub open spec fn bump(next: u64, id: u64) -> u64 {
    if next > id + 1 {
        next
    } else {
        (id + 1) as u64
    }
}

/// Whether an open transaction names `claim_id` among its acceptance claims.
pub open spec fn claim_in_open_transaction(txns: Map<u64, TransactionView>, claim_id: u64) -> bool {
    exists|k: u64|
        #[trigger] txns.contains_key(k) && txns[k].state == TransactionState::Open
            && txns[k].acceptance_claim_ids.contains(claim_id)
}

/// The first acceptance claim that is missing or superseded, as the error it
/// raises.
pub open spec fn acceptance_claims_error(claims: Map<u64, ClaimView>, ids: Seq<u64>) -> Option<
    ReplayError,
>
    decreases ids.len(),
{
    if ids.len() == 0 {
        None
    } else if !claims.contains_key(ids[0]) {
        Some(ReplayError::ClaimNotFound(ids[0]))
    } else if !(claims[ids[0]].lifecycle is Active) {
        Some(ReplayError::CorruptLog)
    } else {
        acceptance_claims_error(claims, ids.drop_first())
    }
}

pub open spec fn spec_apply_event(p: ProjectionView, event: Event) -> Result<ProjectionView, ReplayError> {
    match event {
        Event::ObjectiveBound { intent, external_reference } => Ok(
            ProjectionView {
                objective: Some(
                    ObjectiveView { intent: intent@, external_reference: opt_str(external_reference) },
                ),
                ..p
            },
        ),
        Event::ObservationFocused { observation_id, reason } => {
            if !p.observations.contains_key(observation_id) {
                Err(ReplayError::ObservationNotFound(observation_id))
            } else {
                let entry = WorkingSetEntryView {
                    observation_id,
                    reason: reason@,
                    focus_sequence: p.next_focus_ordinal,
                };
                Ok(
                    ProjectionView {
                        next_focus_ordinal: (p.next_focus_ordinal + 1) as u64,
                        navigation_trail: p.navigation_trail.push(entry),
                        working_set: p.working_set.insert(observation_id, entry),
                        ..p
                    },
                )
            }
        },
        Event::ObservationRecorded {
            observation_id,
            path,
            provider,
            git_revision,
            selector,
            normalizer,
            input_fingerprint,
            raw_fingerprint,
            container_fingerprint,
            native_payload_reference,
            ingested_bytes,
            model_visible_bytes,
            reconciliation_fingerprint,
        } => {
            if p.observations.contains_key(observation_id) || observation_id == u64::MAX {
                Err(ReplayError::CorruptLog)
            } else {
                let o = ObservationView {
                    id: observation_id,
                    path: path@,
                    provider: provider@,
                    observed_revision: git_revision@,
                    selector,
                    normalizer,
                    observed_input_fingerprint: input_fingerprint@,
                    observed_raw_fingerprint: opt_str(raw_fingerprint),
                    observed_container_fingerprint: match container_fingerprint {
                        Some(c) => c@,
                        None => input_fingerprint@,
                    },
                    native_payload_reference: opt_str(native_payload_reference),
                    ingested_bytes,
                    model_visible_bytes,
                    report: location_report(
                        path@,
                        selector,
                        reconciliation_fingerprint@,
                        FreshnessWithinScope::Current,
                        "supporting input recorded"@,
                    ),
                };
                Ok(
                    ProjectionView {
                        next_observation_id: bump(p.next_observation_id, observation_id),
                        observations: p.observations.insert(observation_id, o),
                        observations_since_last_claim: (p.observations_since_last_claim
                            + 1) as u64,
                        ..p
                    },
                )
            }
        },
        Event::ObservationReconciled {
            observation_id,
            freshness,
            reason,
            reconciliation_fingerprint,
        } => {
            if !p.observations.contains_key(observation_id) {
                Err(ReplayError::ObservationNotFound(observation_id))
            } else {
                let o = p.observations[observation_id];
                Ok(
                    ProjectionView {
                        observations: p.observations.insert(
                            observation_id,
                            ObservationView {
                                report: report_with_verdict(
                                    o.report,
                                    freshness,
                                    reason@,
                                    reconciliation_fingerprint@,
                                ),
                                ..o
                            },
                        ),
                        ..p
                    },
                )
            }
        },
        Event::ClaimRecorded {
            claim_id,
            statement,
            supporting_observation_ids,
            scope_strategy,
            inputs,
            freshness,
            reason,
            reconciliation_fingerprint,
        } => {
            if p.claims.contains_key(claim_id) {
                Err(ReplayError::CorruptLog)
            } else if exists|i: int|
                0 <= i < supporting_observation_ids@.len() && !p.observations.contains_key(
                    #[trigger] supporting_observation_ids@[i],
                ) {
                Err(ReplayError::CorruptLog)
            } else if claim_id == u64::MAX {
                Err(ReplayError::CorruptLog)
            } else {
                let c = ClaimView {
                    id: claim_id,
                    statement: statement@,
                    supporting_observation_ids: supporting_observation_ids@,
                    scope_strategy,
                    inputs: inputs_view(inputs@),
                    lifecycle: ClaimLifecycleView::Active,
                    report: FreshnessReportView {
                        freshness_within_scope: freshness,
                        scope_assurance: ScopeAssurance {
                            source: scope_strategy.spec_assurance_source(),
                            completeness: ScopeCompleteness::NotAsserted,
                        },
                        operational_coverage: inputs_coverage(
                            inputs_view(inputs@),
                            reconciliation_fingerprint@,
                        ),
                        reason: reason@,
                    },
                };
                Ok(
                    ProjectionView {
                        next_claim_id: bump(p.next_claim_id, claim_id),
                        claims: p.claims.insert(claim_id, c),
                        observations_since_last_claim: 0,
                        ..p
                    },
                )
            }
        },
        Event::ClaimReconciled { claim_id, freshness, reason, reconciliation_fingerprint } => {
            if !p.claims.contains_key(claim_id) {
                Err(ReplayError::ClaimNotFound(claim_id))
            } else {
                let c = p.claims[claim_id];
                Ok(
                    ProjectionView {
                        claims: p.claims.insert(
                            claim_id,
                            ClaimView {
                                report: report_with_verdict(
                                    c.report,
                                    freshness,
                                    reason@,
                                    reconciliation_fingerprint@,
                                ),
                                ..c
                            },
                        ),
                        ..p
                    },
                )
            }
        },
        Event::ClaimSuperseded { claim_id, replacement_claim_id, reason } => {
            if crate::text::is_blank_spec(reason@) || claim_id == replacement_claim_id
                || claim_in_open_transaction(p.transactions, claim_id) {
                Err(ReplayError::CorruptLog)
            } else if !p.claims.contains_key(replacement_claim_id) {
                Err(ReplayError::ClaimNotFound(replacement_claim_id))
            } else if !(p.claims[replacement_claim_id].lifecycle is Active) {
                Err(ReplayError::CorruptLog)
            } else if !p.claims.contains_key(claim_id) {
                Err(ReplayError::ClaimNotFound(claim_id))
            } else if !(p.claims[claim_id].lifecycle is Active) {
                Err(ReplayError::CorruptLog)
            } else {
                Ok(
                    ProjectionView {
                        claims: p.claims.insert(
                            claim_id,
                            ClaimView {
                                lifecycle: ClaimLifecycleView::Superseded {
                                    replacement_claim_id,
                                    reason: reason@,
                                },
                                ..p.claims[claim_id]
                            },
                        ),
                        ..p
                    },
                )
            }
        },
        Event::TransactionBegan {
            transaction_id,
            intent,
            base_revision,
            initial_worktree_fingerprint,
            acceptance_claim_ids,
        } => {
            if p.transactions.contains_key(transaction_id) || acceptance_claim_ids@.len() == 0 {
                Err(ReplayError::CorruptLog)
            } else if acceptance_claims_error(p.claims, acceptance_claim_ids@) is Some {
                Err(acceptance_claims_error(p.claims, acceptance_claim_ids@).unwrap())
            } else if transaction_id == u64::MAX {
                Err(ReplayError::CorruptLog)
            } else {
                let t = TransactionView {
                    id: transaction_id,
                    intent: opt_str(intent),
                    base_revision: base_revision@,
                    initial_worktree_fingerprint: initial_worktree_fingerprint@,
                    acceptance_claim_ids: acceptance_claim_ids@,
                    evidence_ids: Seq::empty(),
                    finding_ids: Seq::empty(),
                    residual_risks: Seq::empty(),
                    mutations: Seq::empty(),
                    state: TransactionState::Open,
                    last_rejection: None,
                };
                Ok(
                    ProjectionView {
                        next_transaction_id: bump(p.next_transaction_id, transaction_id),
                        transactions: p.transactions.insert(transaction_id, t),
                        ..p
                    },
                )
            }
        },
        Event::TransactionFindingAssociated { transaction_id, finding_id } => {
            if !p.findings.contains_key(finding_id) {
                Err(ReplayError::FindingNotFound(finding_id))
            } else if !p.transactions.contains_key(transaction_id) {
                Err(ReplayError::TransactionNotFound(transaction_id))
            } else {
                let t = p.transactions[transaction_id];
                let ids = if t.finding_ids.contains(finding_id) {
                    t.finding_ids
                } else {
                    t.finding_ids.push(finding_id)
                };
                Ok(
                    ProjectionView {
                        transactions: p.transactions.insert(
                            transaction_id,
                            TransactionView { finding_ids: ids, ..t },
                        ),
                        ..p
                    },
                )
            }
        },
        Event::TransactionResidualRiskRecorded { transaction_id, risk } => {
            if !p.transactions.contains_key(transaction_id) {
                Err(ReplayError::TransactionNotFound(transaction_id))
            } else {
                let t = p.transactions[transaction_id];
                Ok(
                    ProjectionView {
                        transactions: p.transactions.insert(
                            transaction_id,
                            TransactionView { residual_risks: t.residual_risks.push(risk@), ..t },
                        ),
                        ..p
                    },
                )
            }
        },
        Event::EvidenceRecorded {
            evidence_id,
            transaction_id,
            claim_id,
            check_name,
            invocation,
            provider,
            outcome,
            inputs,
            candidate_fingerprint,
            freshness,
            reason,
            reconciliation_fingerprint,
        } => {
            if p.evidence.contains_key(evidence_id) {
                Err(ReplayError::CorruptLog)
            } else if !p.transactions.contains_key(transaction_id) {
                Err(ReplayError::TransactionNotFound(transaction_id))
            } else if p.transactions[transaction_id].state != TransactionState::Open
                || !p.transactions[transaction_id].acceptance_claim_ids.contains(claim_id) {
                Err(ReplayError::CorruptLog)
            } else if !p.claims.contains_key(claim_id) {
                Err(ReplayError::ClaimNotFound(claim_id))
            } else if !(p.claims[claim_id].lifecycle is Active) {
                Err(ReplayError::CorruptLog)
            } else if inputs_view(inputs@) != p.claims[claim_id].inputs || freshness
                != FreshnessWithinScope::Current {
                Err(ReplayError::CorruptLog)
            } else if evidence_id == u64::MAX {
                Err(ReplayError::CorruptLog)
            } else {
                let claim = p.claims[claim_id];
                let t = p.transactions[transaction_id];
                let e = EvidenceView {
                    id: evidence_id,
                    transaction_id,
                    claim_id,
                    check_name: check_name@,
                    invocation: invocation@,
                    provider: provider@,
                    outcome,
                    inputs: inputs_view(inputs@),
                    candidate_fingerprint: candidate_fingerprint@,
                    report: FreshnessReportView {
                        freshness_within_scope: freshness,
                        scope_assurance: ScopeAssurance {
                            source: claim.report.scope_assurance.source,
                            completeness: ScopeCompleteness::NotAsserted,
                        },
                        operational_coverage: inputs_coverage(
                            claim.inputs,
                            reconciliation_fingerprint@,
                        ),
                        reason: reason@,
                    },
                };
                Ok(
                    ProjectionView {
                        next_evidence_id: bump(p.next_evidence_id, evidence_id),
                        transactions: p.transactions.insert(
                            transaction_id,
                            TransactionView { evidence_ids: t.evidence_ids.push(evidence_id), ..t },
                        ),
                        evidence: p.evidence.insert(evidence_id, e),
                        ..p
                    },
                )
            }
        },
        Event::EvidenceReconciled {
            evidence_id,
            freshness,
            reason,
            reconciliation_fingerprint,
        } => {
            if !p.evidence.contains_key(evidence_id) {
                Err(ReplayError::EvidenceNotFound(evidence_id))
            } else {
                let e = p.evidence[evidence_id];
                Ok(
                    ProjectionView {
                        evidence: p.evidence.insert(
                            evidence_id,
                            EvidenceView {
                                report: report_with_verdict(
                                    e.report,
                                    freshness,
                                    reason@,
                                    reconciliation_fingerprint@,
                                ),
                                ..e
                            },
                        ),
                        ..p
                    },
                )
            }
        },
        Event::FindingRecorded {
            finding_id,
            provider,
            severity,
            rule,
            message,
            path,
            selector,
            normalizer,
            git_revision,
            input_fingerprint,
            raw_fingerprint,
            container_fingerprint,
            native_payload_reference,
            native_payload_fingerprint,
            freshness,
            reason,
            reconciliation_fingerprint,
        } => {
            if p.findings.contains_key(finding_id) || finding_id == u64::MAX {
                Err(ReplayError::CorruptLog)
            } else {
                let f = FindingView {
                    id: finding_id,
                    provider: provider@,
                    severity,
                    rule: opt_str(rule),
                    message: message@,
                    path: path@,
                    selector,
                    normalizer,
                    observed_revision: git_revision@,
                    observed_input_fingerprint: input_fingerprint@,
                    observed_raw_fingerprint: opt_str(raw_fingerprint),
                    observed_container_fingerprint: container_fingerprint@,
                    native_payload_reference: opt_str(native_payload_reference),
                    native_payload_fingerprint: opt_str(native_payload_fingerprint),
                    disposition: FindingDispositionView::Open,
                    report: location_report(
                        path@,
                        selector,
                        reconciliation_fingerprint@,
                        freshness,
                        reason@,
                    ),
                };
                Ok(
                    ProjectionView {
                        next_finding_id: bump(p.next_finding_id, finding_id),
                        findings: p.findings.insert(finding_id, f),
                        ..p
                    },
                )
            }
        },
        Event::FindingReconciled { finding_id, freshness, reason, reconciliation_fingerprint } => {
            if !p.findings.contains_key(finding_id) {
                Err(ReplayError::FindingNotFound(finding_id))
            } else {
                let f = p.findings[finding_id];
                Ok(
                    ProjectionView {
                        findings: p.findings.insert(
                            finding_id,
                            FindingView {
                                report: report_with_verdict(
                                    f.report,
                                    freshness,
                                    reason@,
                                    reconciliation_fingerprint@,
                                ),
                                ..f
                            },
                        ),
                        ..p
                    },
                )
            }
        },
        Event::FindingDispositionChanged { finding_id, disposition } => {
            if !p.findings.contains_key(finding_id) {
                Err(ReplayError::FindingNotFound(finding_id))
            } else {
                let f = p.findings[finding_id];
                Ok(
                    ProjectionView {
                        findings: p.findings.insert(
                            finding_id,
                            FindingView { disposition: disposition@, ..f },
                        ),
                        ..p
                    },
                )
            }
        },
        Event::MutationApplied { transaction_id, mutation } => {
            if !p.transactions.contains_key(transaction_id) {
                Err(ReplayError::TransactionNotFound(transaction_id))
            } else {
                let t = p.transactions[transaction_id];
                Ok(
                    ProjectionView {
                        transactions: p.transactions.insert(
                            transaction_id,
                            TransactionView { mutations: t.mutations.push(mutation@), ..t },
                        ),
                        ..p
                    },
                )
            }
        },
        Event::TransactionAccepted { transaction_id } => {
            if !p.transactions.contains_key(transaction_id) {
                Err(ReplayError::TransactionNotFound(transaction_id))
            } else {
                let t = p.transactions[transaction_id];
                Ok(
                    ProjectionView {
                        transactions: p.transactions.insert(
                            transaction_id,
                            TransactionView {
                                state: TransactionState::Accepted,
                                last_rejection: None,
                                ..t
                            },
                        ),
                        ..p
                    },
                )
            }
        },
        Event::TransactionReverted { transaction_id } => {
            if !p.transactions.contains_key(transaction_id) {
                Err(ReplayError::TransactionNotFound(transaction_id))
            } else {
                let t = p.transactions[transaction_id];
                Ok(
                    ProjectionView {
                        transactions: p.transactions.insert(
                            transaction_id,
                            TransactionView { state: TransactionState::Reverted, ..t },
                        ),
                        ..p
                    },
                )
            }
        },
        Event::TransactionAcceptanceRejected { transaction_id, reason } => {
            if !p.transactions.contains_key(transaction_id) {
                Err(ReplayError::TransactionNotFound(transaction_id))
            } else {
                let t = p.transactions[transaction_id];
                Ok(
                    ProjectionView {
                        transactions: p.transactions.insert(
                            transaction_id,
                            TransactionView { last_rejection: Some(reason@), ..t },
                        ),
                        ..p
                    },
                )
            }
        },
        Event::Checkpointed { label, note, git_revision } => Ok(
            ProjectionView {
                checkpoints: p.checkpoints.push(
                    CheckpointMarkerView {
                        label: label@,
                        note: opt_str(note),
                        git_revision: git_revision@,
                        objective: p.objective,
                        sequence: (p.next_sequence - 1) as u64,
                    },
                ),
                ..p
            },
        ),
    }
}

/// Applying one record: its schema version must be supported and its
/// sequence must be the next one, then the event takes effect.
pub open spec fn spec_apply(p: ProjectionView, record: EventRecord) -> Result<ProjectionView, ReplayError> {
    if !(MINIMUM_EVENT_SCHEMA_VERSION <= record.schema_version <= EVENT_SCHEMA_VERSION) {
        Err(ReplayError::CorruptLog)
    } else if record.sequence != p.next_sequence || p.next_sequence == u64::MAX {
        Err(ReplayError::CorruptLog)
    } else {
        spec_apply_event(
            ProjectionView { next_sequence: (p.next_sequence + 1) as u64, ..p },
            record.event,
        )
    }
}

/// Replaying records from a projection, stopping before the first record
/// whose sequence exceeds `max_sequence` when one is given.
pub open spec fn spec_replay(
    p: ProjectionView,
    records: Seq<EventRecord>,
    max_sequence: Option<u64>,
) -> Result<ProjectionView, ReplayError>
    decreases records.len(),
{
    if records.len() == 0 {
        Ok(p)
    } else if max_sequence matches Some(m) && records[0].sequence > m {
        Ok(p)
    } else {
        match spec_apply(p, records[0]) {
            Ok(q) => spec_replay(q, records.drop_first(), max_sequence),
            Err(e) => Err(e),
        }
    }
}

/// The projection a whole log describes.
pub open spec fn projection_of(records: Seq<EventRecord>) -> Result<ProjectionView, ReplayError> {
    spec_replay(empty_projection(), records, None)
}

/// The outcome of applying an event, as the exec functions report it.
pub open spec fn applied(
    old: ProjectionView,
    event: Event,
    r: Result<(), WorkspaceError>,
    new: Projection,
) -> bool {
    match spec_apply_event(old, event) {
        Ok(q) => r is Ok && new.wf() && new@ == q,
        Err(k) => r matches Err(e) && error_is(e, k),
    }
}

fn corrupt_id(prefix: &str, id: u64, suffix: &str) -> (r: WorkspaceError)
    ensures
        r is CorruptLog,
{
    let mut m = prefix.to_owned();
    push_decimal(&mut m, id);
    m.append(suffix);
    WorkspaceError::CorruptLog(m)
}

fn corrupt(message: &str) -> (r: WorkspaceError)
    ensures
        r is CorruptLog,
{
    WorkspaceError::CorruptLog(message.to_owned())
}

fn next_id(next: u64, id: u64) -> (r: u64)
    requires
        id < u64::MAX,
    ensures
        r == bump(next, id),
{
    if next > id + 1 {
        next
    } else {
        id + 1
    }
}

pub fn vec_contains(v: &Vec<u64>, x: u64) -> (r: bool)
    ensures
        r == v@.contains(x),
{
    let mut i: usize = 0;
    while i < v.len()
        invariant
            i <= v.len(),
            forall|k: int| 0 <= k < i ==> v@[k] != x,
        decreases v.len() - i,
    {
        if v[i] == x {
            return true;
        }
        i = i + 1;
    }
    false
}

pub fn clone_u64s(v: &Vec<u64>) -> (r: Vec<u64>)
    ensures
        r@ == v@,
{
    let r = v.clone();
    assert(r@ =~= v@);
    r
}

/// The paths and units a list of inputs mediates.
fn inputs_paths_units(inputs: &Vec<ClaimInput>) -> (r: (Vec<String>, Vec<MediatedUnit>))
    ensures
        strings_view(r.0@) == inputs_view(inputs@).map_values(|i: ClaimInputView| i.path),
        units_view(r.1@) == inputs_view(inputs@).map_values(
            |i: ClaimInputView| MediatedUnitView { path: i.path, selector: i.selector },
        ),
{
    let mut paths: Vec<String> = Vec::new();
    let mut units: Vec<MediatedUnit> = Vec::new();
    let mut i: usize = 0;
    while i < inputs.len()
        invariant
            i <= inputs.len(),
            paths@.len() == i,
            units@.len() == i,
            forall|k: int| 0 <= k < i ==> #[trigger] paths@[k]@ == inputs@[k].path@,
            forall|k: int|
                0 <= k < i ==> #[trigger] units@[k]@ == (MediatedUnitView {
                    path: inputs@[k].path@,
                    selector: inputs@[k].selector,
                }),
        decreases inputs.len() - i,
    {
        paths.push(inputs[i].path.clone());
        units.push(MediatedUnit { path: inputs[i].path.clone(), selector: inputs[i].selector });
        i = i + 1;
    }
    assert(strings_view(paths@) =~= inputs_view(inputs@).map_values(|i: ClaimInputView| i.path));
    assert(units_view(units@) =~= inputs_view(inputs@).map_values(
        |i: ClaimInputView| MediatedUnitView { path: i.path, selector: i.selector },
    ));
    (paths, units)
}

pub fn claim_in_open_transaction_exec(txns: &Vec<Transaction>, claim_id: u64) -> (r: bool)
    requires
        keys_increasing::<Transaction>(vseq(txns@)),
    ensures
        r == claim_in_open_transaction(to_map::<Transaction>(vseq(txns@)), claim_id),
{
    let ghost m = to_map::<Transaction>(vseq(txns@));
    let mut i: usize = 0;
    while i < txns.len()
        invariant
            i <= txns.len(),
            keys_increasing::<Transaction>(vseq(txns@)),
            m == to_map::<Transaction>(vseq(txns@)),
            forall|k: int|
                0 <= k < i ==> !(#[trigger] txns@[k].state == TransactionState::Open
                    && txns@[k].acceptance_claim_ids@.contains(claim_id)),
        decreases txns.len() - i,
    {
        if txns[i].state == TransactionState::Open && vec_contains(&txns[i].acceptance_claim_ids, claim_id) {
            proof {
                assert(vseq(txns@)[i as int] == txns@[i as int]@);
                crate::store::lemma_to_map_index::<Transaction>(vseq(txns@), i as int);
                assert(m.contains_key(txns@[i as int].id));
            }
            return true;
        }
        i = i + 1;
    }
    proof {
        assert forall|k: u64| #[trigger] m.contains_key(k) implies !(m[k].state == TransactionState::Open
            && m[k].acceptance_claim_ids.contains(claim_id)) by {
            crate::store::lemma_to_map_dom::<Transaction>(vseq(txns@), k);
            let j = choose|j: int| 0 <= j < vseq(txns@).len() && Transaction::key_of(#[trigger] vseq(txns@)[j]) == k;
            assert(vseq(txns@)[j] == txns@[j]@);
            crate::store::lemma_to_map_index::<Transaction>(vseq(txns@), j);
        }
    }
    false
}

impl Projection {
    /// Well-formed and with a sequence number consumed by the record being
    /// applied.
    pub open spec fn ready(&self) -> bool {
        &&& keys_increasing::<WorkingSetEntry>(vseq(self.working_set@))
        &&& keys_increasing::<Observation>(vseq(self.observations@))
        &&& keys_increasing::<Claim>(vseq(self.claims@))
        &&& keys_increasing::<Evidence>(vseq(self.evidence@))
        &&& keys_increasing::<Finding>(vseq(self.findings@))
        &&& keys_increasing::<Transaction>(vseq(self.transactions@))
        &&& self.next_focus_ordinal < self.next_sequence
        &&& self.observations_since_last_claim < self.next_sequence
        &&& ids_below_next(self@)
    }

    fn objective_bound(&mut self, intent: String, external_reference: Option<String>) -> (r: Result<(), WorkspaceError>)
        requires
            old(self).ready(),
        ensures
            applied(old(self)@, Event::ObjectiveBound { intent, external_reference }, r, *final(self)),
    {
        self.objective = Some(Objective { intent, external_reference });
        Ok(())
    }

    fn observation_focused(&mut self, observation_id: u64, reason: String) -> (r: Result<(), WorkspaceError>)
        requires
            old(self).ready(),
        ensures
            applied(old(self)@, Event::ObservationFocused { observation_id, reason }, r, *final(self)),
    {
        if find_index(&self.observations, observation_id).is_none() {
            return Err(WorkspaceError::ObservationNotFound(observation_id));
        }
        let ordinal = self.next_focus_ordinal;
        self.next_focus_ordinal = ordinal + 1;
        let entry = WorkingSetEntry { observation_id, reason, focus_sequence: ordinal };
        let ghost ev = entry@;
        self.navigation_trail.push(entry.clone());
        match find_index(&self.working_set, observation_id) {
            Some(i) => {
                replace_at(&mut self.working_set, i, entry);
            },
            None => {
                insert_sorted(&mut self.working_set, entry);
            },
        }
        assert(vseq(self.navigation_trail@) =~= vseq(old(self).navigation_trail@).push(ev));
        Ok(())
    }

    fn observation_recorded(
        &mut self,
        observation_id: u64,
        path: String,
        provider: String,
        git_revision: String,
        selector: ObservationSelector,
        normalizer: Normalizer,
        input_fingerprint: String,
        raw_fingerprint: Option<String>,
        container_fingerprint: Option<String>,
        native_payload_reference: Option<String>,
        ingested_bytes: usize,
        model_visible_bytes: Option<usize>,
        reconciliation_fingerprint: String,
    ) -> (r: Result<(), WorkspaceError>)
        requires
            old(self).ready(),
        ensures
            applied(
                old(self)@,
                Event::ObservationRecorded {
                    observation_id,
                    path,
                    provider,
                    git_revision,
                    selector,
                    normalizer,
                    input_fingerprint,
                    raw_fingerprint,
                    container_fingerprint,
                    native_payload_reference,
                    ingested_bytes,
                    model_visible_bytes,
                    reconciliation_fingerprint,
                },
                r,
                *final(self),
            ),
    {
        if find_index(&self.observations, observation_id).is_some() {
            return Err(corrupt_id("duplicate observation ", observation_id, ""));
        }
        if observation_id == u64::MAX {
            return Err(corrupt("observation id is out of range"));
        }
        self.next_observation_id = next_id(self.next_observation_id, observation_id);
        let container = match container_fingerprint {
            Some(c) => c,
            None => input_fingerprint.clone(),
        };
        let completeness = if selector == ObservationSelector::WholeFile {
            ScopeCompleteness::AssertedComplete
        } else {
            ScopeCompleteness::NotAsserted
        };
        let paths = vec![path.clone()];
        let units = vec![MediatedUnit { path: path.clone(), selector }];
        assert(strings_view(paths@) =~= seq![path@]);
        assert(units_view(units@) =~= seq![MediatedUnitView { path: path@, selector: selector }]);
        let reason = crate::error::msg("supporting input recorded");
        proof {
            reveal_strlit("supporting input recorded");
        }
        let o = Observation {
            id: observation_id,
            path,
            provider,
            observed_revision: git_revision,
            selector,
            normalizer,
            observed_input_fingerprint: input_fingerprint,
            observed_raw_fingerprint: raw_fingerprint,
            observed_container_fingerprint: container,
            native_payload_reference,
            ingested_bytes,
            model_visible_bytes,
            report: FreshnessReport {
                freshness_within_scope: FreshnessWithinScope::Current,
                scope_assurance: ScopeAssurance { source: ScopeSource::Declared, completeness },
                operational_coverage: OperationalCoverage {
                    mediated_paths: paths,
                    mediated_units: units,
                    reconciliation_fingerprint,
                },
                reason,
            },
        };
        insert_sorted(&mut self.observations, o);
        self.observations_since_last_claim = self.observations_since_last_claim + 1;
        Ok(())
    }

    fn observation_reconciled(
        &mut self,
        observation_id: u64,
        freshness: FreshnessWithinScope,
        reason: String,
        reconciliation_fingerprint: String,
    ) -> (r: Result<(), WorkspaceError>)
        requires
            old(self).ready(),
        ensures
            applied(
                old(self)@,
                Event::ObservationReconciled { observation_id, freshness, reason, reconciliation_fingerprint },
                r,
                *final(self),
            ),
    {
        match find_index(&self.observations, observation_id) {
            None => Err(WorkspaceError::ObservationNotFound(observation_id)),
            Some(i) => {
                let mut o = self.observations[i].clone();
                o.report.freshness_within_scope = freshness;
                o.report.reason = reason;
                o.report.operational_coverage.reconciliation_fingerprint = reconciliation_fingerprint;
                replace_at(&mut self.observations, i, o);
                Ok(())
            },
        }
    }

    fn claim_recorded(
        &mut self,
        claim_id: u64,
        statement: String,
        supporting_observation_ids: Vec<u64>,
        scope_strategy: ClaimScopeStrategy,
        inputs: Vec<ClaimInput>,
        freshness: FreshnessWithinScope,
        reason: String,
        reconciliation_fingerprint: String,
    ) -> (r: Result<(), WorkspaceError>)
        requires
            old(self).ready(),
        ensures
            applied(
                old(self)@,
                Event::ClaimRecorded {
                    claim_id,
                    statement,
                    supporting_observation_ids,
                    scope_strategy,
                    inputs,
                    freshness,
                    reason,
                    reconciliation_fingerprint,
                },
                r,
                *final(self),
            ),
    {
        if find_index(&self.claims, claim_id).is_some() {
            return Err(corrupt_id("duplicate claim ", claim_id, ""));
        }
        let mut i: usize = 0;
        while i < supporting_observation_ids.len()
            invariant
                i <= supporting_observation_ids.len(),
                self.ready(),
                *self == *old(self),
                forall|k: int|
                    0 <= k < i ==> self@.observations.contains_key(
                        #[trigger] supporting_observation_ids@[k],
                    ),
            decreases supporting_observation_ids.len() - i,
        {
            if find_index(&self.observations, supporting_observation_ids[i]).is_none() {
                let mut m = crate::error::msg("claim ");
                push_decimal(&mut m, claim_id);
                m.append(" references missing observation ");
                push_decimal(&mut m, supporting_observation_ids[i]);
                return Err(WorkspaceError::CorruptLog(m));
            }
            i = i + 1;
        }
        if claim_id == u64::MAX {
            return Err(corrupt("claim id is out of range"));
        }
        self.next_claim_id = next_id(self.next_claim_id, claim_id);
        let (paths, units) = inputs_paths_units(&inputs);
        let c = Claim {
            id: claim_id,
            statement,
            supporting_observation_ids,
            scope_strategy,
            inputs,
            lifecycle: ClaimLifecycle::Active,
            report: FreshnessReport {
                freshness_within_scope: freshness,
                scope_assurance: ScopeAssurance {
                    source: scope_strategy.assurance_source(),
                    completeness: ScopeCompleteness::NotAsserted,
                },
                operational_coverage: OperationalCoverage {
                    mediated_paths: paths,
                    mediated_units: units,
                    reconciliation_fingerprint,
                },
                reason,
            },
        };
        insert_sorted(&mut self.claims, c);
        self.observations_since_last_claim = 0;
        Ok(())
    }

    fn claim_reconciled(
        &mut self,
        claim_id: u64,
        freshness: FreshnessWithinScope,
        reason: String,
        reconciliation_fingerprint: String,
    ) -> (r: Result<(), WorkspaceError>)
        requires
            old(self).ready(),
        ensures
            applied(
                old(self)@,
                Event::ClaimReconciled { claim_id, freshness, reason, reconciliation_fingerprint },
                r,
                *final(self),
            ),
    {
        match find_index(&self.claims, claim_id) {
            None => Err(WorkspaceError::ClaimNotFound(claim_id)),
            Some(i) => {
                let mut c = self.claims[i].clone();
                c.report.freshness_within_scope = freshness;
                c.report.reason = reason;
                c.report.operational_coverage.reconciliation_fingerprint = reconciliation_fingerprint;
                replace_at(&mut self.claims, i, c);
                Ok(())
            },
        }
    }

    fn claim_superseded(&mut self, claim_id: u64, replacement_claim_id: u64, reason: String) -> (r: Result<(), WorkspaceError>)
        requires
            old(self).ready(),
        ensures
            applied(
                old(self)@,
                Event::ClaimSuperseded { claim_id, replacement_claim_id, reason },
                r,
                *final(self),
            ),
    {
        if crate::text::is_blank(reason.as_str()) {
            return Err(corrupt_id("claim ", claim_id, " has an empty supersession reason"));
        }
        if claim_id == replacement_claim_id {
            return Err(corrupt_id("claim ", claim_id, " supersedes itself"));
        }
        if claim_in_open_transaction_exec(&self.transactions, claim_id) {
            return Err(corrupt_id("superseded claim ", claim_id, " belongs to an open transaction"));
        }
        match find_index(&self.claims, replacement_claim_id) {
            None => {
                return Err(WorkspaceError::ClaimNotFound(replacement_claim_id));
            },
            Some(j) => {
                if !self.claims[j].lifecycle.is_active() {
                    return Err(corrupt_id("replacement claim ", replacement_claim_id, " is superseded"));
                }
            },
        }
        match find_index(&self.claims, claim_id) {
            None => Err(WorkspaceError::ClaimNotFound(claim_id)),
            Some(i) => {
                if !self.claims[i].lifecycle.is_active() {
                    return Err(corrupt_id("claim ", claim_id, " is already superseded"));
                }
                let mut c = self.claims[i].clone();
                c.lifecycle = ClaimLifecycle::Superseded { replacement_claim_id, reason };
                replace_at(&mut self.claims, i, c);
                Ok(())
            },
        }
    }

    fn transaction_began(
        &mut self,
        transaction_id: u64,
        intent: Option<String>,
        base_revision: String,
        initial_worktree_fingerprint: String,
        acceptance_claim_ids: Vec<u64>,
    ) -> (r: Result<(), WorkspaceError>)
        requires
            old(self).ready(),
        ensures
            applied(
                old(self)@,
                Event::TransactionBegan {
                    transaction_id,
                    intent,
                    base_revision,
                    initial_worktree_fingerprint,
                    acceptance_claim_ids,
                },
                r,
                *final(self),
            ),
    {
        if find_index(&self.transactions, transaction_id).is_some() {
            return Err(corrupt_id("duplicate transaction ", transaction_id, ""));
        }
        if acceptance_claim_ids.len() == 0 {
            return Err(corrupt_id("transaction ", transaction_id, " has no acceptance claims"));
        }
        let ghost claims = self@.claims;
        let mut i: usize = 0;
        assert(acceptance_claim_ids@.skip(0) =~= acceptance_claim_ids@);
        while i < acceptance_claim_ids.len()
            invariant
                i <= acceptance_claim_ids.len(),
                self.ready(),
                *self == *old(self),
                claims == self@.claims,
                !self@.transactions.contains_key(transaction_id),
                acceptance_claim_ids@.len() > 0,
                acceptance_claims_error(claims, acceptance_claim_ids@) == acceptance_claims_error(
                    claims,
                    acceptance_claim_ids@.skip(i as int),
                ),
            decreases acceptance_claim_ids.len() - i,
        {
            let id = acceptance_claim_ids[i];
            proof {
                assert(acceptance_claim_ids@.skip(i as int)[0] == id);
                assert(acceptance_claim_ids@.skip(i as int).drop_first() =~= acceptance_claim_ids@.skip(
                    i + 1,
                ));
            }
            match find_index(&self.claims, id) {
                None => {
                    assert(acceptance_claims_error(claims, acceptance_claim_ids@.skip(i as int))
                        == Some(ReplayError::ClaimNotFound(id)));
                    return Err(WorkspaceError::ClaimNotFound(id));
                },
                Some(j) => {
                    if !self.claims[j].lifecycle.is_active() {
                        let mut m = crate::error::msg("transaction ");
                        push_decimal(&mut m, transaction_id);
                        m.append(" references superseded claim ");
                        push_decimal(&mut m, id);
                        return Err(WorkspaceError::CorruptLog(m));
                    }
                },
            }
            i = i + 1;
        }
        if transaction_id == u64::MAX {
            return Err(corrupt("transaction id is out of range"));
        }
        self.next_transaction_id = next_id(self.next_transaction_id, transaction_id);
        let t = Transaction {
            id: transaction_id,
            intent,
            base_revision,
            initial_worktree_fingerprint,
            acceptance_claim_ids,
            evidence_ids: Vec::new(),
            finding_ids: Vec::new(),
            residual_risks: Vec::new(),
            mutations: Vec::new(),
            state: TransactionState::Open,
            last_rejection: None,
        };
        assert(t@.evidence_ids =~= Seq::empty());
        assert(t@.finding_ids =~= Seq::empty());
        assert(t@.residual_risks =~= Seq::empty());
        assert(t@.mutations =~= Seq::empty());
        insert_sorted(&mut self.transactions, t);
        Ok(())
    }

    fn transaction_finding_associated(&mut self, transaction_id: u64, finding_id: u64) -> (r: Result<(), WorkspaceError>)
        requires
            old(self).ready(),
        ensures
            applied(
                old(self)@,
                Event::TransactionFindingAssociated { transaction_id, finding_id },
                r,
                *final(self),
            ),
    {
        if find_index(&self.findings, finding_id).is_none() {
            return Err(WorkspaceError::FindingNotFound(finding_id));
        }
        match find_index(&self.transactions, transaction_id) {
            None => Err(WorkspaceError::TransactionNotFound(transaction_id)),
            Some(i) => {
                let mut t = self.transactions[i].clone();
                if !vec_contains(&t.finding_ids, finding_id) {
                    t.finding_ids.push(finding_id);
                }
                replace_at(&mut self.transactions, i, t);
                Ok(())
            },
        }
    }

    fn transaction_residual_risk_recorded(&mut self, transaction_id: u64, risk: String) -> (r: Result<(), WorkspaceError>)
        requires
            old(self).ready(),
        ensures
            applied(
                old(self)@,
                Event::TransactionResidualRiskRecorded { transaction_id, risk },
                r,
                *final(self),
            ),
    {
        match find_index(&self.transactions, transaction_id) {
            None => Err(WorkspaceError::TransactionNotFound(transaction_id)),
            Some(i) => {
                let mut t = self.transactions[i].clone();
                let ghost before = t@;
                let ghost rv = risk@;
                t.residual_risks.push(risk);
                assert(t@.residual_risks =~= before.residual_risks.push(rv));
                replace_at(&mut self.transactions, i, t);
                Ok(())
            },
        }
    }

    fn evidence_recorded(
        &mut self,
        evidence_id: u64,
        transaction_id: u64,
        claim_id: u64,
        check_name: String,
        invocation: String,
        provider: String,
        outcome: EvidenceOutcome,
        inputs: Vec<ClaimInput>,
        candidate_fingerprint: String,
        freshness: FreshnessWithinScope,
        reason: String,
        reconciliation_fingerprint: String,
    ) -> (r: Result<(), WorkspaceError>)
        requires
            old(self).ready(),
        ensures
            applied(
                old(self)@,
                Event::EvidenceRecorded {
                    evidence_id,
                    transaction_id,
                    claim_id,
                    check_name,
                    invocation,
                    provider,
                    outcome,
                    inputs,
                    candidate_fingerprint,
                    freshness,
                    reason,
                    reconciliation_fingerprint,
                },
                r,
                *final(self),
            ),
    {
        if find_index(&self.evidence, evidence_id).is_some() {
            return Err(corrupt_id("duplicate evidence ", evidence_id, ""));
        }
        let ti = match find_index(&self.transactions, transaction_id) {
            None => {
                return Err(WorkspaceError::TransactionNotFound(transaction_id));
            },
            Some(ti) => ti,
        };
        if self.transactions[ti].state != TransactionState::Open || !vec_contains(
            &self.transactions[ti].acceptance_claim_ids,
            claim_id,
        ) {
            return Err(
                corrupt_id(
                    "evidence ",
                    evidence_id,
                    " does not support an open transaction acceptance claim",
                ),
            );
        }
        let ci = match find_index(&self.claims, claim_id) {
            None => {
                return Err(WorkspaceError::ClaimNotFound(claim_id));
            },
            Some(ci) => ci,
        };
        if !self.claims[ci].lifecycle.is_active() {
            let mut m = crate::error::msg("evidence ");
            push_decimal(&mut m, evidence_id);
            m.append(" references superseded claim ");
            push_decimal(&mut m, claim_id);
            return Err(WorkspaceError::CorruptLog(m));
        }
        if !inputs_equal(&inputs, &self.claims[ci].inputs) || freshness
            != FreshnessWithinScope::Current {
            return Err(corrupt_id("evidence ", evidence_id, " does not match its current claim inputs"));
        }
        if evidence_id == u64::MAX {
            return Err(corrupt("evidence id is out of range"));
        }
        let assurance_source = self.claims[ci].report.scope_assurance.source;
        let (paths, units) = inputs_paths_units(&self.claims[ci].inputs);
        self.next_evidence_id = next_id(self.next_evidence_id, evidence_id);
        let mut t = self.transactions[ti].clone();
        let ghost before = t@;
        t.evidence_ids.push(evidence_id);
        assert(t@.evidence_ids =~= before.evidence_ids.push(evidence_id));
        replace_at(&mut self.transactions, ti, t);
        let e = Evidence {
            id: evidence_id,
            transaction_id,
            claim_id,
            check_name,
            invocation,
            provider,
            outcome,
            inputs,
            candidate_fingerprint,
            report: FreshnessReport {
                freshness_within_scope: freshness,
                scope_assurance: ScopeAssurance {
                    source: assurance_source,
                    completeness: ScopeCompleteness::NotAsserted,
                },
                operational_coverage: OperationalCoverage {
                    mediated_paths: paths,
                    mediated_units: units,
                    reconciliation_fingerprint,
                },
                reason,
            },
        };
        insert_sorted(&mut self.evidence, e);
        Ok(())
    }

    fn evidence_reconciled(
        &mut self,
        evidence_id: u64,
        freshness: FreshnessWithinScope,
        reason: String,
        reconciliation_fingerprint: String,
    ) -> (r: Result<(), WorkspaceError>)
        requires
            old(self).ready(),
        ensures
            applied(
                old(self)@,
                Event::EvidenceReconciled { evidence_id, freshness, reason, reconciliation_fingerprint },
                r,
                *final(self),
            ),
    {
        match find_index(&self.evidence, evidence_id) {
            None => Err(WorkspaceError::EvidenceNotFound(evidence_id)),
            Some(i) => {
                let mut e = self.evidence[i].clone();
                e.report.freshness_within_scope = freshness;
                e.report.reason = reason;
                e.report.operational_coverage.reconciliation_fingerprint = reconciliation_fingerprint;
                replace_at(&mut self.evidence, i, e);
                Ok(())
            },
        }
    }

    fn finding_recorded(
        &mut self,
        finding_id: u64,
        provider: String,
        severity: FindingSeverity,
        rule: Option<String>,
        message: String,
        path: String,
        selector: ObservationSelector,
        normalizer: Normalizer,
        git_revision: String,
        input_fingerprint: String,
        raw_fingerprint: Option<String>,
        container_fingerprint: String,
        native_payload_reference: Option<String>,
        native_payload_fingerprint: Option<String>,
        freshness: FreshnessWithinScope,
        reason: String,
        reconciliation_fingerprint: String,
    ) -> (r: Result<(), WorkspaceError>)
        requires
            old(self).ready(),
        ensures
            applied(
                old(self)@,
                Event::FindingRecorded {
                    finding_id,
                    provider,
                    severity,
                    rule,
                    message,
                    path,
                    selector,
                    normalizer,
                    git_revision,
                    input_fingerprint,
                    raw_fingerprint,
                    container_fingerprint,
                    native_payload_reference,
                    native_payload_fingerprint,
                    freshness,
                    reason,
                    reconciliation_fingerprint,
                },
                r,
                *final(self),
            ),
    {
        if find_index(&self.findings, finding_id).is_some() {
            return Err(corrupt_id("duplicate finding ", finding_id, ""));
        }
        if finding_id == u64::MAX {
            return Err(corrupt("finding id is out of range"));
        }
        self.next_finding_id = next_id(self.next_finding_id, finding_id);
        let completeness = if selector == ObservationSelector::WholeFile {
            ScopeCompleteness::AssertedComplete
        } else {
            ScopeCompleteness::NotAsserted
        };
        let paths = vec![path.clone()];
        let units = vec![MediatedUnit { path: path.clone(), selector }];
        assert(strings_view(paths@) =~= seq![path@]);
        assert(units_view(units@) =~= seq![MediatedUnitView { path: path@, selector: selector }]);
        let f = Finding {
            id: finding_id,
            provider,
            severity,
            rule,
            message,
            path,
            selector,
            normalizer,
            observed_revision: git_revision,
            observed_input_fingerprint: input_fingerprint,
            observed_raw_fingerprint: raw_fingerprint,
            observed_container_fingerprint: container_fingerprint,
            native_payload_reference,
            native_payload_fingerprint,
            disposition: FindingDisposition::Open,
            report: FreshnessReport {
                freshness_within_scope: freshness,
                scope_assurance: ScopeAssurance { source: ScopeSource::Declared, completeness },
                operational_coverage: OperationalCoverage {
                    mediated_paths: paths,
                    mediated_units: units,
                    reconciliation_fingerprint,
                },
                reason,
            },
        };
        insert_sorted(&mut self.findings, f);
        Ok(())
    }

    fn finding_reconciled(
        &mut self,
        finding_id: u64,
        freshness: FreshnessWithinScope,
        reason: String,
        reconciliation_fingerprint: String,
    ) -> (r: Result<(), WorkspaceError>)
        requires
            old(self).ready(),
        ensures
            applied(
                old(self)@,
                Event::FindingReconciled { finding_id, freshness, reason, reconciliation_fingerprint },
                r,
                *final(self),
            ),
    {
        match find_index(&self.findings, finding_id) {
            None => Err(WorkspaceError::FindingNotFound(finding_id)),
            Some(i) => {
                let mut f = self.findings[i].clone();
                f.report.freshness_within_scope = freshness;
                f.report.reason = reason;
                f.report.operational_coverage.reconciliation_fingerprint = reconciliation_fingerprint;
                replace_at(&mut self.findings, i, f);
                Ok(())
            },
        }
    }

    fn finding_disposition_changed(&mut self, finding_id: u64, disposition: FindingDisposition) -> (r: Result<(), WorkspaceError>)
        requires
            old(self).ready(),
        ensures
            applied(
                old(self)@,
                Event::FindingDispositionChanged { finding_id, disposition },
                r,
                *final(self),
            ),
    {
        match find_index(&self.findings, finding_id) {
            None => Err(WorkspaceError::FindingNotFound(finding_id)),
            Some(i) => {
                let mut f = self.findings[i].clone();
                f.disposition = disposition;
                replace_at(&mut self.findings, i, f);
                Ok(())
            },
        }
    }

    fn mutation_applied(&mut self, transaction_id: u64, mutation: Mutation) -> (r: Result<(), WorkspaceError>)
        requires
            old(self).ready(),
        ensures
            applied(old(self)@, Event::MutationApplied { transaction_id, mutation }, r, *final(self)),
    {
        match find_index(&self.transactions, transaction_id) {
            None => Err(WorkspaceError::TransactionNotFound(transaction_id)),
            Some(i) => {
                let mut t = self.transactions[i].clone();
                let ghost before = t@;
                let ghost mv = mutation@;
                t.mutations.push(mutation);
                assert(t@.mutations =~= before.mutations.push(mv));
                replace_at(&mut self.transactions, i, t);
                Ok(())
            },
        }
    }

    fn transaction_accepted(&mut self, transaction_id: u64) -> (r: Result<(), WorkspaceError>)
        requires
            old(self).ready(),
        ensures
            applied(old(self)@, Event::TransactionAccepted { transaction_id }, r, *final(self)),
    {
        match find_index(&self.transactions, transaction_id) {
            None => Err(WorkspaceError::TransactionNotFound(transaction_id)),
            Some(i) => {
                let mut t = self.transactions[i].clone();
                t.state = TransactionState::Accepted;
                t.last_rejection = None;
                replace_at(&mut self.transactions, i, t);
                Ok(())
            },
        }
    }

    fn transaction_reverted(&mut self, transaction_id: u64) -> (r: Result<(), WorkspaceError>)
        requires
            old(self).ready(),
        ensures
            applied(old(self)@, Event::TransactionReverted { transaction_id }, r, *final(self)),
    {
        match find_index(&self.transactions, transaction_id) {
            None => Err(WorkspaceError::TransactionNotFound(transaction_id)),
            Some(i) => {
                let mut t = self.transactions[i].clone();
                t.state = TransactionState::Reverted;
                replace_at(&mut self.transactions, i, t);
                Ok(())
            },
        }
    }

    fn transaction_acceptance_rejected(&mut self, transaction_id: u64, reason: String) -> (r: Result<(), WorkspaceError>)
        requires
            old(self).ready(),
        ensures
            applied(
                old(self)@,
                Event::TransactionAcceptanceRejected { transaction_id, reason },
                r,
                *final(self),
            ),
    {
        match find_index(&self.transactions, transaction_id) {
            None => Err(WorkspaceError::TransactionNotFound(transaction_id)),
            Some(i) => {
                let mut t = self.transactions[i].clone();
                t.last_rejection = Some(reason);
                replace_at(&mut self.transactions, i, t);
                Ok(())
            },
        }
    }

    fn checkpointed(&mut self, label: String, note: Option<String>, git_revision: String) -> (r: Result<(), WorkspaceError>)
        requires
            old(self).ready(),
        ensures
            applied(old(self)@, Event::Checkpointed { label, note, git_revision }, r, *final(self)),
    {
        let marker = CheckpointMarker {
            label,
            note,
            git_revision,
            objective: clone_opt_objective(&self.objective),
            sequence: self.next_sequence - 1,
        };
        let ghost mv = marker@;
        self.checkpoints.push(marker);
        assert(vseq(self.checkpoints@) =~= vseq(old(self).checkpoints@).push(mv));
        Ok(())
    }

    fn apply_event(&mut self, event: Event) -> (r: Result<(), WorkspaceError>)
        requires
            old(self).ready(),
        ensures
            applied(old(self)@, event, r, *final(self)),
    {
        match event {
            Event::ObjectiveBound { intent, external_reference } => self.objective_bound(
                intent,
                external_reference,
            ),
            Event::ObservationFocused { observation_id, reason } => self.observation_focused(
                observation_id,
                reason,
            ),
            Event::ObservationRecorded {
                observation_id,
                path,
                provider,
                git_revision,
                selector,
                normalizer,
                input_fingerprint,
                raw_fingerprint,
                container_fingerprint,
                native_payload_reference,
                ingested_bytes,
                model_visible_bytes,
                reconciliation_fingerprint,
            } => self.observation_recorded(
                observation_id,
                path,
                provider,
                git_revision,
                selector,
                normalizer,
                input_fingerprint,
                raw_fingerprint,
                container_fingerprint,
                native_payload_reference,
                ingested_bytes,
                model_visible_bytes,
                reconciliation_fingerprint,
            ),
            Event::ObservationReconciled {
                observation_id,
                freshness,
                reason,
                reconciliation_fingerprint,
            } => self.observation_reconciled(
                observation_id,
                freshness,
                reason,
                reconciliation_fingerprint,
            ),
            Event::ClaimRecorded {
                claim_id,
                statement,
                supporting_observation_ids,
                scope_strategy,
                inputs,
                freshness,
                reason,
                reconciliation_fingerprint,
            } => self.claim_recorded(
                claim_id,
                statement,
                supporting_observation_ids,
                scope_strategy,
                inputs,
                freshness,
                reason,
                reconciliation_fingerprint,
            ),
            Event::ClaimReconciled { claim_id, freshness, reason, reconciliation_fingerprint } => {
                self.claim_reconciled(claim_id, freshness, reason, reconciliation_fingerprint)
            },
            Event::ClaimSuperseded { claim_id, replacement_claim_id, reason } => self.claim_superseded(
                claim_id,
                replacement_claim_id,
                reason,
            ),
            Event::TransactionBegan {
                transaction_id,
                intent,
                base_revision,
                initial_worktree_fingerprint,
                acceptance_claim_ids,
            } => self.transaction_began(
                transaction_id,
                intent,
                base_revision,
                initial_worktree_fingerprint,
                acceptance_claim_ids,
            ),
            Event::TransactionFindingAssociated { transaction_id, finding_id } => {
                self.transaction_finding_associated(transaction_id, finding_id)
            },
            Event::TransactionResidualRiskRecorded { transaction_id, risk } => {
                self.transaction_residual_risk_recorded(transaction_id, risk)
            },
            Event::EvidenceRecorded {
                evidence_id,
                transaction_id,
                claim_id,
                check_name,
                invocation,
                provider,
                outcome,
                inputs,
                candidate_fingerprint,
                freshness,
                reason,
                reconciliation_fingerprint,
            } => self.evidence_recorded(
                evidence_id,
                transaction_id,
                claim_id,
                check_name,
                invocation,
                provider,
                outcome,
                inputs,
                candidate_fingerprint,
                freshness,
                reason,
                reconciliation_fingerprint,
            ),
            Event::EvidenceReconciled {
                evidence_id,
                freshness,
                reason,
                reconciliation_fingerprint,
            } => self.evidence_reconciled(evidence_id, freshness, reason, reconciliation_fingerprint),
            Event::FindingRecorded {
                finding_id,
                provider,
                severity,
                rule,
                message,
                path,
                selector,
                normalizer,
                git_revision,
                input_fingerprint,
                raw_fingerprint,
                container_fingerprint,
                native_payload_reference,
                native_payload_fingerprint,
                freshness,
                reason,
                reconciliation_fingerprint,
            } => self.finding_recorded(
                finding_id,
                provider,
                severity,
                rule,
                message,
                path,
                selector,
                normalizer,
                git_revision,
                input_fingerprint,
                raw_fingerprint,
                container_fingerprint,
                native_payload_reference,
                native_payload_fingerprint,
                freshness,
                reason,
                reconciliation_fingerprint,
            ),
            Event::FindingReconciled { finding_id, freshness, reason, reconciliation_fingerprint } => {
                self.finding_reconciled(finding_id, freshness, reason, reconciliation_fingerprint)
            },
            Event::FindingDispositionChanged { finding_id, disposition } => {
                self.finding_disposition_changed(finding_id, disposition)
            },
            Event::MutationApplied { transaction_id, mutation } => self.mutation_applied(
                transaction_id,
                mutation,
            ),
            Event::TransactionAccepted { transaction_id } => self.transaction_accepted(transaction_id),
            Event::TransactionReverted { transaction_id } => self.transaction_reverted(transaction_id),
            Event::TransactionAcceptanceRejected { transaction_id, reason } => {
                self.transaction_acceptance_rejected(transaction_id, reason)
            },
            Event::Checkpointed { label, note, git_revision } => self.checkpointed(
                label,
                note,
                git_revision,
            ),
        }
    }

    /// Apply one record of the log: it must carry a supported schema
    /// version and the next sequence number.
    pub fn apply(&mut self, record: EventRecord) -> (r: Result<(), WorkspaceError>)
        requires
            old(self).wf(),
        ensures
            match spec_apply(old(self)@, record) {
                Ok(q) => r is Ok && final(self).wf() && final(self)@ == q,
                Err(k) => r matches Err(e) && error_is(e, k),
            },
            !(MINIMUM_EVENT_SCHEMA_VERSION <= record.schema_version <= EVENT_SCHEMA_VERSION) ==> (r matches Err(
                WorkspaceError::CorruptLog(m),
            ) && m@ == "unsupported schema version "@ + crate::text::decimal(record.schema_version as nat)
                && final(self)@ == old(self)@),
            MINIMUM_EVENT_SCHEMA_VERSION <= record.schema_version <= EVENT_SCHEMA_VERSION && (record.sequence
                != old(self)@.next_sequence || old(self)@.next_sequence == u64::MAX) ==> (r matches Err(
                WorkspaceError::CorruptLog(m),
            ) && m@ == "expected sequence "@ + crate::text::decimal(old(self)@.next_sequence as nat) + ", found "@
                + crate::text::decimal(record.sequence as nat) && final(self)@ == old(self)@),
            r is Ok ==> record.sequence == old(self)@.next_sequence && final(self)@.next_sequence
                == old(self)@.next_sequence + 1,
    {
        if !(MINIMUM_EVENT_SCHEMA_VERSION <= record.schema_version && record.schema_version
            <= EVENT_SCHEMA_VERSION) {
            let mut m = crate::error::msg("unsupported schema version ");
            push_decimal(&mut m, record.schema_version as u64);
            return Err(WorkspaceError::CorruptLog(m));
        }
        if record.sequence != self.next_sequence || self.next_sequence == u64::MAX {
            let mut m = crate::error::msg("expected sequence ");
            push_decimal(&mut m, self.next_sequence);
            m.append(", found ");
            push_decimal(&mut m, record.sequence);
            return Err(WorkspaceError::CorruptLog(m));
        }
        self.next_sequence = self.next_sequence + 1;
        let ghost mid = self@;
        assert(mid == (ProjectionView { next_sequence: (old(self)@.next_sequence + 1) as u64, ..old(self)@ }));
        self.apply_event(record.event)
    }
}


/// Applying an event leaves the sequence counter as it is.
pub proof fn lemma_event_keeps_sequence(p: ProjectionView, e: Event)
    ensures
        spec_apply_event(p, e) matches Ok(q) ==> q.next_sequence == p.next_sequence,
{
}

/// A log that replays whole also replays up to any sequence number.
pub proof fn lemma_replay_prefix_ok(p: ProjectionView, records: Seq<EventRecord>, m: u64)
    ensures
        spec_replay(p, records, None) is Ok ==> spec_replay(p, records, Some(m)) is Ok,
    decreases records.len(),
{
    if records.len() > 0 && !(records[0].sequence > m) {
        match spec_apply(p, records[0]) {
            Ok(q) => {
                lemma_replay_prefix_ok(q, records.drop_first(), m);
            },
            Err(_) => {},
        }
    }
}

/// A replay that succeeds consumes one sequence number per record.
pub proof fn lemma_replay_counts(p: ProjectionView, records: Seq<EventRecord>)
    ensures
        spec_replay(p, records, None) matches Ok(q) ==> q.next_sequence == p.next_sequence + records.len(),
    decreases records.len(),
{
    if records.len() > 0 {
        match spec_apply(p, records[0]) {
            Ok(q) => {
                lemma_event_keeps_sequence(
                    ProjectionView { next_sequence: (p.next_sequence + 1) as u64, ..p },
                    records[0].event,
                );
                lemma_replay_counts(q, records.drop_first());
            },
            Err(_) => {},
        }
    }
}

/// Applying an event depends only on the values it carries.
pub proof fn lemma_same_event_same_outcome(p: ProjectionView, a: Event, b: Event)
    requires
        same_event(a, b),
    ensures
        spec_apply_event(p, a) == spec_apply_event(p, b),
{
    match (a, b) {
        (
            Event::ClaimRecorded { supporting_observation_ids: x, .. },
            Event::ClaimRecorded { supporting_observation_ids: y, .. },
        ) => {
            assert(x@ == y@);
        },
        (
            Event::TransactionBegan { acceptance_claim_ids: x, .. },
            Event::TransactionBegan { acceptance_claim_ids: y, .. },
        ) => {
            assert(x@ == y@);
        },
        _ => {},
    }
}

pub proof fn lemma_same_record_same_outcome(p: ProjectionView, a: EventRecord, b: EventRecord)
    requires
        a.schema_version == b.schema_version,
        a.sequence == b.sequence,
        same_event(a.event, b.event),
    ensures
        spec_apply(p, a) == spec_apply(p, b),
{
    lemma_same_event_same_outcome(
        ProjectionView { next_sequence: (p.next_sequence + 1) as u64, ..p },
        a.event,
        b.event,
    );
}

/// Replay `records` onto `projection`, stopping before the first record
/// whose sequence exceeds `max_sequence` when one is given.
pub fn replay_onto(
    projection: Projection,
    records: &Vec<EventRecord>,
    max_sequence: Option<u64>,
) -> (r: Result<Projection, WorkspaceError>)
    requires
        projection.wf(),
    ensures
        match spec_replay(projection@, records@, max_sequence) {
            Ok(q) => r matches Ok(p) && p.wf() && p@ == q,
            Err(k) => r matches Err(e) && error_is(e, k),
        },
{
    let mut p = projection;
    let mut i: usize = 0;
    assert(records@.skip(0) =~= records@);
    while i < records.len()
        invariant
            i <= records.len(),
            p.wf(),
            spec_replay(projection@, records@, max_sequence) == spec_replay(
                p@,
                records@.skip(i as int),
                max_sequence,
            ),
        decreases records.len() - i,
    {
        let rest = Ghost(records@.skip(i as int));
        assert(rest@[0] == records@[i as int]);
        assert(rest@.drop_first() =~= records@.skip(i + 1));
        if let Some(m) = max_sequence {
            if records[i].sequence > m {
                return Ok(p);
            }
        }
        let record = records[i].duplicate();
        proof {
            lemma_same_record_same_outcome(p@, record, records@[i as int]);
        }
        let ghost before = p@;
        match p.apply(record) {
            Ok(()) => {},
            Err(e) => {
                return Err(e);
            },
        }
        i = i + 1;
    }
    Ok(p)
}

/// Replay a log from the beginning.
pub fn replay(records: &Vec<EventRecord>, max_sequence: Option<u64>) -> (r: Result<Projection, WorkspaceError>)
    ensures
        match spec_replay(empty_projection(), records@, max_sequence) {
            Ok(q) => r matches Ok(p) && p.wf() && p@ == q,
            Err(k) => r matches Err(e) && error_is(e, k),
        },
{
    replay_onto(Projection::new(), records, max_sequence)
}

} // verus!

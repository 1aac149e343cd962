//! The append-only event log's records.

use vstd::prelude::*;

use crate::state::clone_u64s;

use crate::model::{
    clone_inputs, clone_opt_string, inputs_view, opt_str,
    ClaimInput, ClaimScopeStrategy, EvidenceOutcome, FindingDisposition, FindingSeverity,
    FreshnessWithinScope, Mutation, Normalizer, ObservationSelector,
};

verus! {

pub const EVENT_SCHEMA_VERSION: u32 = 2;

pub const MINIMUM_EVENT_SCHEMA_VERSION: u32 = 1;

pub struct EventRecord {
    pub schema_version: u32,
    pub sequence: u64,
    pub event: Event,
}

pub enum Event {
    ObjectiveBound { intent: String, external_reference: Option<String> },
    ObservationFocused { observation_id: u64, reason: String },
    ObservationRecorded {
        observation_id: u64,
        path: String,
        provider: String,
        git_revision: String,
        selector: ObservationSelector,
        normalizer: Normalizer,
        input_fingerprint: String,
        raw_fingerprint: Option<String>,
        container_fingerprint: Option<String>,
        native_payload_reference: Option<String>,
        ingested_bytes: usize,
        model_visible_bytes: Option<usize>,
        reconciliation_fingerprint: String,
    },
    ObservationReconciled {
        observation_id: u64,
        freshness: FreshnessWithinScope,
        reason: String,
        reconciliation_fingerprint: String,
    },
    ClaimRecorded {
        claim_id: u64,
        statement: String,
        supporting_observation_ids: Vec<u64>,
        scope_strategy: ClaimScopeStrategy,
        inputs: Vec<ClaimInput>,
        freshness: FreshnessWithinScope,
        reason: String,
        reconciliation_fingerprint: String,
    },
    ClaimReconciled {
        claim_id: u64,
        freshness: FreshnessWithinScope,
        reason: String,
        reconciliation_fingerprint: String,
    },
    ClaimSuperseded { claim_id: u64, replacement_claim_id: u64, reason: String },
    TransactionBegan {
        transaction_id: u64,
        intent: Option<String>,
        base_revision: String,
        initial_worktree_fingerprint: String,
        acceptance_claim_ids: Vec<u64>,
    },
    TransactionFindingAssociated { transaction_id: u64, finding_id: u64 },
    TransactionResidualRiskRecorded { transaction_id: u64, risk: String },
    EvidenceRecorded {
        evidence_id: u64,
        transaction_id: u64,
        claim_id: u64,
        check_name: String,
        invocation: String,
        provider: String,
        outcome: EvidenceOutcome,
        inputs: Vec<ClaimInput>,
        candidate_fingerprint: String,
        freshness: FreshnessWithinScope,
        reason: String,
        reconciliation_fingerprint: String,
    },
    EvidenceReconciled {
        evidence_id: u64,
        freshness: FreshnessWithinScope,
        reason: String,
        reconciliation_fingerprint: String,
    },
    FindingRecorded {
        finding_id: u64,
        provider: String,
        severity: FindingSeverity,
        rule: Option<String>,
        message: String,
        path: String,
        selector: ObservationSelector,
        normalizer: Normalizer,
        git_revision: String,
        input_fingerprint: String,
        raw_fingerprint: Option<String>,
        container_fingerprint: String,
        native_payload_reference: Option<String>,
        native_payload_fingerprint: Option<String>,
        freshness: FreshnessWithinScope,
        reason: String,
        reconciliation_fingerprint: String,
    },
    FindingReconciled {
        finding_id: u64,
        freshness: FreshnessWithinScope,
        reason: String,
        reconciliation_fingerprint: String,
    },
    FindingDispositionChanged { finding_id: u64, disposition: FindingDisposition },
    MutationApplied { transaction_id: u64, mutation: Mutation },
    TransactionAccepted { transaction_id: u64 },
    TransactionReverted { transaction_id: u64 },
    TransactionAcceptanceRejected { transaction_id: u64, reason: String },
    Checkpointed { label: String, note: Option<String>, git_revision: String },
}

/// Whether two events carry the same values, compared by view.
pub open spec fn same_event(a: Event, b: Event) -> bool {
    match (a, b) {
        (Event::ObjectiveBound { intent: a_intent, external_reference: a_external_reference }, Event::ObjectiveBound { intent: b_intent, external_reference: b_external_reference }) => a_intent@ == b_intent@ && opt_str(a_external_reference) == opt_str(b_external_reference),
        (Event::ObservationFocused { observation_id: a_observation_id, reason: a_reason }, Event::ObservationFocused { observation_id: b_observation_id, reason: b_reason }) => a_observation_id == b_observation_id && a_reason@ == b_reason@,
        (Event::ObservationRecorded { observation_id: a_observation_id, path: a_path, provider: a_provider, git_revision: a_git_revision, selector: a_selector, normalizer: a_normalizer, input_fingerprint: a_input_fingerprint, raw_fingerprint: a_raw_fingerprint, container_fingerprint: a_container_fingerprint, native_payload_reference: a_native_payload_reference, ingested_bytes: a_ingested_bytes, model_visible_bytes: a_model_visible_bytes, reconciliation_fingerprint: a_reconciliation_fingerprint }, Event::ObservationRecorded { observation_id: b_observation_id, path: b_path, provider: b_provider, git_revision: b_git_revision, selector: b_selector, normalizer: b_normalizer, input_fingerprint: b_input_fingerprint, raw_fingerprint: b_raw_fingerprint, container_fingerprint: b_container_fingerprint, native_payload_reference: b_native_payload_reference, ingested_bytes: b_ingested_bytes, model_visible_bytes: b_model_visible_bytes, reconciliation_fingerprint: b_reconciliation_fingerprint }) => a_observation_id == b_observation_id && a_path@ == b_path@ && a_provider@ == b_provider@ && a_git_revision@ == b_git_revision@ && a_selector == b_selector && a_normalizer == b_normalizer && a_input_fingerprint@ == b_input_fingerprint@ && opt_str(a_raw_fingerprint) == opt_str(b_raw_fingerprint) && opt_str(a_container_fingerprint) == opt_str(b_container_fingerprint) && opt_str(a_native_payload_reference) == opt_str(b_native_payload_reference) && a_ingested_bytes == b_ingested_bytes && a_model_visible_bytes == b_model_visible_bytes && a_reconciliation_fingerprint@ == b_reconciliation_fingerprint@,
        (Event::ObservationReconciled { observation_id: a_observation_id, freshness: a_freshness, reason: a_reason, reconciliation_fingerprint: a_reconciliation_fingerprint }, Event::ObservationReconciled { observation_id: b_observation_id, freshness: b_freshness, reason: b_reason, reconciliation_fingerprint: b_reconciliation_fingerprint }) => a_observation_id == b_observation_id && a_freshness == b_freshness && a_reason@ == b_reason@ && a_reconciliation_fingerprint@ == b_reconciliation_fingerprint@,
        (Event::ClaimRecorded { claim_id: a_claim_id, statement: a_statement, supporting_observation_ids: a_supporting_observation_ids, scope_strategy: a_scope_strategy, inputs: a_inputs, freshness: a_freshness, reason: a_reason, reconciliation_fingerprint: a_reconciliation_fingerprint }, Event::ClaimRecorded { claim_id: b_claim_id, statement: b_statement, supporting_observation_ids: b_supporting_observation_ids, scope_strategy: b_scope_strategy, inputs: b_inputs, freshness: b_freshness, reason: b_reason, reconciliation_fingerprint: b_reconciliation_fingerprint }) => a_claim_id == b_claim_id && a_statement@ == b_statement@ && a_supporting_observation_ids@ == b_supporting_observation_ids@ && a_scope_strategy == b_scope_strategy && inputs_view(a_inputs@) == inputs_view(b_inputs@) && a_freshness == b_freshness && a_reason@ == b_reason@ && a_reconciliation_fingerprint@ == b_reconciliation_fingerprint@,
        (Event::ClaimReconciled { claim_id: a_claim_id, freshness: a_freshness, reason: a_reason, reconciliation_fingerprint: a_reconciliation_fingerprint }, Event::ClaimReconciled { claim_id: b_claim_id, freshness: b_freshness, reason: b_reason, reconciliation_fingerprint: b_reconciliation_fingerprint }) => a_claim_id == b_claim_id && a_freshness == b_freshness && a_reason@ == b_reason@ && a_reconciliation_fingerprint@ == b_reconciliation_fingerprint@,
        (Event::ClaimSuperseded { claim_id: a_claim_id, replacement_claim_id: a_replacement_claim_id, reason: a_reason }, Event::ClaimSuperseded { claim_id: b_claim_id, replacement_claim_id: b_replacement_claim_id, reason: b_reason }) => a_claim_id == b_claim_id && a_replacement_claim_id == b_replacement_claim_id && a_reason@ == b_reason@,
        (Event::TransactionBegan { transaction_id: a_transaction_id, intent: a_intent, base_revision: a_base_revision, initial_worktree_fingerprint: a_initial_worktree_fingerprint, acceptance_claim_ids: a_acceptance_claim_ids }, Event::TransactionBegan { transaction_id: b_transaction_id, intent: b_intent, base_revision: b_base_revision, initial_worktree_fingerprint: b_initial_worktree_fingerprint, acceptance_claim_ids: b_acceptance_claim_ids }) => a_transaction_id == b_transaction_id && opt_str(a_intent) == opt_str(b_intent) && a_base_revision@ == b_base_revision@ && a_initial_worktree_fingerprint@ == b_initial_worktree_fingerprint@ && a_acceptance_claim_ids@ == b_acceptance_claim_ids@,
        (Event::TransactionFindingAssociated { transaction_id: a_transaction_id, finding_id: a_finding_id }, Event::TransactionFindingAssociated { transaction_id: b_transaction_id, finding_id: b_finding_id }) => a_transaction_id == b_transaction_id && a_finding_id == b_finding_id,
        (Event::TransactionResidualRiskRecorded { transaction_id: a_transaction_id, risk: a_risk }, Event::TransactionResidualRiskRecorded { transaction_id: b_transaction_id, risk: b_risk }) => a_transaction_id == b_transaction_id && a_risk@ == b_risk@,
        (Event::EvidenceRecorded { evidence_id: a_evidence_id, transaction_id: a_transaction_id, claim_id: a_claim_id, check_name: a_check_name, invocation: a_invocation, provider: a_provider, outcome: a_outcome, inputs: a_inputs, candidate_fingerprint: a_candidate_fingerprint, freshness: a_freshness, reason: a_reason, reconciliation_fingerprint: a_reconciliation_fingerprint }, Event::EvidenceRecorded { evidence_id: b_evidence_id, transaction_id: b_transaction_id, claim_id: b_claim_id, check_name: b_check_name, invocation: b_invocation, provider: b_provider, outcome: b_outcome, inputs: b_inputs, candidate_fingerprint: b_candidate_fingerprint, freshness: b_freshness, reason: b_reason, reconciliation_fingerprint: b_reconciliation_fingerprint }) => a_evidence_id == b_evidence_id && a_transaction_id == b_transaction_id && a_claim_id == b_claim_id && a_check_name@ == b_check_name@ && a_invocation@ == b_invocation@ && a_provider@ == b_provider@ && a_outcome == b_outcome && inputs_view(a_inputs@) == inputs_view(b_inputs@) && a_candidate_fingerprint@ == b_candidate_fingerprint@ && a_freshness == b_freshness && a_reason@ == b_reason@ && a_reconciliation_fingerprint@ == b_reconciliation_fingerprint@,
        (Event::EvidenceReconciled { evidence_id: a_evidence_id, freshness: a_freshness, reason: a_reason, reconciliation_fingerprint: a_reconciliation_fingerprint }, Event::EvidenceReconciled { evidence_id: b_evidence_id, freshness: b_freshness, reason: b_reason, reconciliation_fingerprint: b_reconciliation_fingerprint }) => a_evidence_id == b_evidence_id && a_freshness == b_freshness && a_reason@ == b_reason@ && a_reconciliation_fingerprint@ == b_reconciliation_fingerprint@,
        (Event::FindingRecorded { finding_id: a_finding_id, provider: a_provider, severity: a_severity, rule: a_rule, message: a_message, path: a_path, selector: a_selector, normalizer: a_normalizer, git_revision: a_git_revision, input_fingerprint: a_input_fingerprint, raw_fingerprint: a_raw_fingerprint, container_fingerprint: a_container_fingerprint, native_payload_reference: a_native_payload_reference, native_payload_fingerprint: a_native_payload_fingerprint, freshness: a_freshness, reason: a_reason, reconciliation_fingerprint: a_reconciliation_fingerprint }, Event::FindingRecorded { finding_id: b_finding_id, provider: b_provider, severity: b_severity, rule: b_rule, message: b_message, path: b_path, selector: b_selector, normalizer: b_normalizer, git_revision: b_git_revision, input_fingerprint: b_input_fingerprint, raw_fingerprint: b_raw_fingerprint, container_fingerprint: b_container_fingerprint, native_payload_reference: b_native_payload_reference, native_payload_fingerprint: b_native_payload_fingerprint, freshness: b_freshness, reason: b_reason, reconciliation_fingerprint: b_reconciliation_fingerprint }) => a_finding_id == b_finding_id && a_provider@ == b_provider@ && a_severity == b_severity && opt_str(a_rule) == opt_str(b_rule) && a_message@ == b_message@ && a_path@ == b_path@ && a_selector == b_selector && a_normalizer == b_normalizer && a_git_revision@ == b_git_revision@ && a_input_fingerprint@ == b_input_fingerprint@ && opt_str(a_raw_fingerprint) == opt_str(b_raw_fingerprint) && a_container_fingerprint@ == b_container_fingerprint@ && opt_str(a_native_payload_reference) == opt_str(b_native_payload_reference) && opt_str(a_native_payload_fingerprint) == opt_str(b_native_payload_fingerprint) && a_freshness == b_freshness && a_reason@ == b_reason@ && a_reconciliation_fingerprint@ == b_reconciliation_fingerprint@,
        (Event::FindingReconciled { finding_id: a_finding_id, freshness: a_freshness, reason: a_reason, reconciliation_fingerprint: a_reconciliation_fingerprint }, Event::FindingReconciled { finding_id: b_finding_id, freshness: b_freshness, reason: b_reason, reconciliation_fingerprint: b_reconciliation_fingerprint }) => a_finding_id == b_finding_id && a_freshness == b_freshness && a_reason@ == b_reason@ && a_reconciliation_fingerprint@ == b_reconciliation_fingerprint@,
        (Event::FindingDispositionChanged { finding_id: a_finding_id, disposition: a_disposition }, Event::FindingDispositionChanged { finding_id: b_finding_id, disposition: b_disposition }) => a_finding_id == b_finding_id && a_disposition@ == b_disposition@,
        (Event::MutationApplied { transaction_id: a_transaction_id, mutation: a_mutation }, Event::MutationApplied { transaction_id: b_transaction_id, mutation: b_mutation }) => a_transaction_id == b_transaction_id && a_mutation@ == b_mutation@,
        (Event::TransactionAccepted { transaction_id: a_transaction_id }, Event::TransactionAccepted { transaction_id: b_transaction_id }) => a_transaction_id == b_transaction_id,
        (Event::TransactionReverted { transaction_id: a_transaction_id }, Event::TransactionReverted { transaction_id: b_transaction_id }) => a_transaction_id == b_transaction_id,
        (Event::TransactionAcceptanceRejected { transaction_id: a_transaction_id, reason: a_reason }, Event::TransactionAcceptanceRejected { transaction_id: b_transaction_id, reason: b_reason }) => a_transaction_id == b_transaction_id && a_reason@ == b_reason@,
        (Event::Checkpointed { label: a_label, note: a_note, git_revision: a_git_revision }, Event::Checkpointed { label: b_label, note: b_note, git_revision: b_git_revision }) => a_label@ == b_label@ && opt_str(a_note) == opt_str(b_note) && a_git_revision@ == b_git_revision@,
        _ => false,
    }
}

impl Event {
    pub fn duplicate(&self) -> (r: Event)
        ensures
            same_event(r, *self),
    {
        match self {
            Event::ObjectiveBound { intent, external_reference } => Event::ObjectiveBound { intent: intent.clone(), external_reference: clone_opt_string(external_reference) },
            Event::ObservationFocused { observation_id, reason } => Event::ObservationFocused { observation_id: *observation_id, reason: reason.clone() },
            Event::ObservationRecorded { observation_id, path, provider, git_revision, selector, normalizer, input_fingerprint, raw_fingerprint, container_fingerprint, native_payload_reference, ingested_bytes, model_visible_bytes, reconciliation_fingerprint } => Event::ObservationRecorded { observation_id: *observation_id, path: path.clone(), provider: provider.clone(), git_revision: git_revision.clone(), selector: *selector, normalizer: *normalizer, input_fingerprint: input_fingerprint.clone(), raw_fingerprint: clone_opt_string(raw_fingerprint), container_fingerprint: clone_opt_string(container_fingerprint), native_payload_reference: clone_opt_string(native_payload_reference), ingested_bytes: *ingested_bytes, model_visible_bytes: *model_visible_bytes, reconciliation_fingerprint: reconciliation_fingerprint.clone() },
            Event::ObservationReconciled { observation_id, freshness, reason, reconciliation_fingerprint } => Event::ObservationReconciled { observation_id: *observation_id, freshness: *freshness, reason: reason.clone(), reconciliation_fingerprint: reconciliation_fingerprint.clone() },
            Event::ClaimRecorded { claim_id, statement, supporting_observation_ids, scope_strategy, inputs, freshness, reason, reconciliation_fingerprint } => Event::ClaimRecorded { claim_id: *claim_id, statement: statement.clone(), supporting_observation_ids: clone_u64s(supporting_observation_ids), scope_strategy: *scope_strategy, inputs: clone_inputs(inputs), freshness: *freshness, reason: reason.clone(), reconciliation_fingerprint: reconciliation_fingerprint.clone() },
            Event::ClaimReconciled { claim_id, freshness, reason, reconciliation_fingerprint } => Event::ClaimReconciled { claim_id: *claim_id, freshness: *freshness, reason: reason.clone(), reconciliation_fingerprint: reconciliation_fingerprint.clone() },
            Event::ClaimSuperseded { claim_id, replacement_claim_id, reason } => Event::ClaimSuperseded { claim_id: *claim_id, replacement_claim_id: *replacement_claim_id, reason: reason.clone() },
            Event::TransactionBegan { transaction_id, intent, base_revision, initial_worktree_fingerprint, acceptance_claim_ids } => Event::TransactionBegan { transaction_id: *transaction_id, intent: clone_opt_string(intent), base_revision: base_revision.clone(), initial_worktree_fingerprint: initial_worktree_fingerprint.clone(), acceptance_claim_ids: clone_u64s(acceptance_claim_ids) },
            Event::TransactionFindingAssociated { transaction_id, finding_id } => Event::TransactionFindingAssociated { transaction_id: *transaction_id, finding_id: *finding_id },
            Event::TransactionResidualRiskRecorded { transaction_id, risk } => Event::TransactionResidualRiskRecorded { transaction_id: *transaction_id, risk: risk.clone() },
            Event::EvidenceRecorded { evidence_id, transaction_id, claim_id, check_name, invocation, provider, outcome, inputs, candidate_fingerprint, freshness, reason, reconciliation_fingerprint } => Event::EvidenceRecorded { evidence_id: *evidence_id, transaction_id: *transaction_id, claim_id: *claim_id, check_name: check_name.clone(), invocation: invocation.clone(), provider: provider.clone(), outcome: *outcome, inputs: clone_inputs(inputs), candidate_fingerprint: candidate_fingerprint.clone(), freshness: *freshness, reason: reason.clone(), reconciliation_fingerprint: reconciliation_fingerprint.clone() },
            Event::EvidenceReconciled { evidence_id, freshness, reason, reconciliation_fingerprint } => Event::EvidenceReconciled { evidence_id: *evidence_id, freshness: *freshness, reason: reason.clone(), reconciliation_fingerprint: reconciliation_fingerprint.clone() },
            Event::FindingRecorded { finding_id, provider, severity, rule, message, path, selector, normalizer, git_revision, input_fingerprint, raw_fingerprint, container_fingerprint, native_payload_reference, native_payload_fingerprint, freshness, reason, reconciliation_fingerprint } => Event::FindingRecorded { finding_id: *finding_id, provider: provider.clone(), severity: *severity, rule: clone_opt_string(rule), message: message.clone(), path: path.clone(), selector: *selector, normalizer: *normalizer, git_revision: git_revision.clone(), input_fingerprint: input_fingerprint.clone(), raw_fingerprint: clone_opt_string(raw_fingerprint), container_fingerprint: container_fingerprint.clone(), native_payload_reference: clone_opt_string(native_payload_reference), native_payload_fingerprint: clone_opt_string(native_payload_fingerprint), freshness: *freshness, reason: reason.clone(), reconciliation_fingerprint: reconciliation_fingerprint.clone() },
            Event::FindingReconciled { finding_id, freshness, reason, reconciliation_fingerprint } => Event::FindingReconciled { finding_id: *finding_id, freshness: *freshness, reason: reason.clone(), reconciliation_fingerprint: reconciliation_fingerprint.clone() },
            Event::FindingDispositionChanged { finding_id, disposition } => Event::FindingDispositionChanged { finding_id: *finding_id, disposition: disposition.clone() },
            Event::MutationApplied { transaction_id, mutation } => Event::MutationApplied { transaction_id: *transaction_id, mutation: mutation.clone() },
            Event::TransactionAccepted { transaction_id } => Event::TransactionAccepted { transaction_id: *transaction_id },
            Event::TransactionReverted { transaction_id } => Event::TransactionReverted { transaction_id: *transaction_id },
            Event::TransactionAcceptanceRejected { transaction_id, reason } => Event::TransactionAcceptanceRejected { transaction_id: *transaction_id, reason: reason.clone() },
            Event::Checkpointed { label, note, git_revision } => Event::Checkpointed { label: label.clone(), note: clone_opt_string(note), git_revision: git_revision.clone() },
        }
    }
}

impl EventRecord {
    pub fn duplicate(&self) -> (r: EventRecord)
        ensures
            r.schema_version == self.schema_version,
            r.sequence == self.sequence,
            same_event(r.event, self.event),
    {
        EventRecord {
            schema_version: self.schema_version,
            sequence: self.sequence,
            event: self.event.duplicate(),
        }
    }
}

} // verus!

//! The workspace domain model: the durable entities (observations, claims,
//! evidence, findings, transactions) and the small value types they are built
//! from, each with an abstract view that the contracts speak of.

use vstd::prelude::*;

use crate::digest::{hex_digest, hex_digest_spec};
use crate::text::{path_less, path_less_spec, strings_view};

verus! {

/// The view of an optional string.
pub open spec fn opt_str(o: Option<String>) -> Option<Seq<char>> {
    match o {
        Some(s) => Some(s@),
        None => None,
    }
}

pub fn clone_opt_string(o: &Option<String>) -> (r: Option<String>)
    ensures
        opt_str(r) == opt_str(*o),
{
    match o {
        Some(s) => Some(s.clone()),
        None => None,
    }
}

#[derive(Clone, Copy, Debug, PartialEq, Eq, Structural)]
pub enum FreshnessWithinScope {
    Current,
    Stale,
    Unknown,
}

#[derive(Clone, Copy, Debug, PartialEq, Eq, Structural)]
pub enum ScopeSource {
    Declared,
    Derived,
    Conservative,
}

#[derive(Clone, Copy, Debug, PartialEq, Eq, Structural)]
pub enum ScopeCompleteness {
    AssertedComplete,
    NotAsserted,
}

#[derive(Clone, Copy, Debug, PartialEq, Eq, Structural)]
pub struct ScopeAssurance {
    pub source: ScopeSource,
    pub completeness: ScopeCompleteness,
}

#[derive(Clone, Copy, Debug, PartialEq, Eq, Structural)]
pub enum ObservationSelector {
    WholeFile,
    ByteRange { start: usize, end: usize },
}

/// How an observed unit's bytes are canonicalized before fingerprinting.
/// `None` fingerprints raw bytes; a formatter normalizer fingerprints the
/// canonical form, so a pure reformat is not seen as a change.
#[derive(Clone, Copy, Debug, PartialEq, Eq, Structural)]
pub enum Normalizer {
    Raw,
    Rustfmt,
    Prettier,
    Black,
    RuffFormat,
}

/// The registry of tool names a configuration may select.
pub open spec fn normalizer_for_tool_name(name: Seq<char>) -> Option<Normalizer> {
    if name == "none"@ {
        Some(Normalizer::Raw)
    } else if name == "rustfmt"@ {
        Some(Normalizer::Rustfmt)
    } else if name == "prettier"@ {
        Some(Normalizer::Prettier)
    } else if name == "black"@ {
        Some(Normalizer::Black)
    } else if name == "ruff"@ {
        Some(Normalizer::RuffFormat)
    } else {
        None
    }
}

impl Normalizer {
    /// Map a registered tool name to its variant, or `None` for a name the
    /// kernel does not know how to drive.
    pub fn from_tool_name(name: &str) -> (r: Option<Self>)
        ensures
            r == normalizer_for_tool_name(name@),
    {
        proof {
            reveal_strlit("none");
            reveal_strlit("rustfmt");
            reveal_strlit("prettier");
            reveal_strlit("black");
            reveal_strlit("ruff");
        }
        if crate::text::str_equal(name, "none") {
            Some(Self::Raw)
        } else if crate::text::str_equal(name, "rustfmt") {
            Some(Self::Rustfmt)
        } else if crate::text::str_equal(name, "prettier") {
            Some(Self::Prettier)
        } else if crate::text::str_equal(name, "black") {
            Some(Self::Black)
        } else if crate::text::str_equal(name, "ruff") {
            Some(Self::RuffFormat)
        } else {
            None
        }
    }
}

pub struct MediatedUnit {
    pub path: String,
    pub selector: ObservationSelector,
}

pub struct MediatedUnitView {
    pub path: Seq<char>,
    pub selector: ObservationSelector,
}

impl View for MediatedUnit {
    type V = MediatedUnitView;

    open spec fn view(&self) -> MediatedUnitView {
        MediatedUnitView { path: self.path@, selector: self.selector }
    }
}

impl Clone for MediatedUnit {
    fn clone(&self) -> (r: Self)
        ensures
            r@ == self@,
    {
        MediatedUnit { path: self.path.clone(), selector: self.selector }
    }
}

pub open spec fn units_view(v: Seq<MediatedUnit>) -> Seq<MediatedUnitView> {
    v.map_values(|u: MediatedUnit| u@)
}

pub struct OperationalCoverage {
    pub mediated_paths: Vec<String>,
    pub mediated_units: Vec<MediatedUnit>,
    pub reconciliation_fingerprint: String,
}

pub struct OperationalCoverageView {
    pub mediated_paths: Seq<Seq<char>>,
    pub mediated_units: Seq<MediatedUnitView>,
    pub reconciliation_fingerprint: Seq<char>,
}

impl View for OperationalCoverage {
    type V = OperationalCoverageView;

    open spec fn view(&self) -> OperationalCoverageView {
        OperationalCoverageView {
            mediated_paths: strings_view(self.mediated_paths@),
            mediated_units: units_view(self.mediated_units@),
            reconciliation_fingerprint: self.reconciliation_fingerprint@,
        }
    }
}

pub fn clone_units(v: &Vec<MediatedUnit>) -> (r: Vec<MediatedUnit>)
    ensures
        units_view(r@) == units_view(v@),
{
    let mut r: Vec<MediatedUnit> = Vec::new();
    let mut i: usize = 0;
    while i < v.len()
        invariant
            i <= v.len(),
            r@.len() == i,
            forall|k: int| 0 <= k < i ==> r@[k]@ == v@[k]@,
        decreases v.len() - i,
    {
        r.push(v[i].clone());
        i = i + 1;
    }
    assert(units_view(r@) =~= units_view(v@));
    r
}

impl Clone for OperationalCoverage {
    fn clone(&self) -> (r: Self)
        ensures
            r@ == self@,
    {
        OperationalCoverage {
            mediated_paths: crate::text::clone_strings(&self.mediated_paths),
            mediated_units: clone_units(&self.mediated_units),
            reconciliation_fingerprint: self.reconciliation_fingerprint.clone(),
        }
    }
}

pub struct FreshnessReport {
    pub freshness_within_scope: FreshnessWithinScope,
    pub scope_assurance: ScopeAssurance,
    pub operational_coverage: OperationalCoverage,
    pub reason: String,
}

pub struct FreshnessReportView {
    pub freshness_within_scope: FreshnessWithinScope,
    pub scope_assurance: ScopeAssurance,
    pub operational_coverage: OperationalCoverageView,
    pub reason: Seq<char>,
}

impl View for FreshnessReport {
    type V = FreshnessReportView;

    open spec fn view(&self) -> FreshnessReportView {
        FreshnessReportView {
            freshness_within_scope: self.freshness_within_scope,
            scope_assurance: self.scope_assurance,
            operational_coverage: self.operational_coverage@,
            reason: self.reason@,
        }
    }
}

impl Clone for FreshnessReport {
    fn clone(&self) -> (r: Self)
        ensures
            r@ == self@,
    {
        FreshnessReport {
            freshness_within_scope: self.freshness_within_scope,
            scope_assurance: self.scope_assurance,
            operational_coverage: self.operational_coverage.clone(),
            reason: self.reason.clone(),
        }
    }
}

/// The report's verdict after a reconciliation event: the three verdict
/// fields replaced, everything else kept.
pub open spec fn report_with_verdict(
    r: FreshnessReportView,
    freshness: FreshnessWithinScope,
    reason: Seq<char>,
    fingerprint: Seq<char>,
) -> FreshnessReportView {
    FreshnessReportView {
        freshness_within_scope: freshness,
        reason: reason,
        operational_coverage: OperationalCoverageView {
            reconciliation_fingerprint: fingerprint,
            ..r.operational_coverage
        },
        ..r
    }
}

pub struct Observation {
    pub id: u64,
    pub path: String,
    pub provider: String,
    pub observed_revision: String,
    pub selector: ObservationSelector,
    pub normalizer: Normalizer,
    pub observed_input_fingerprint: String,
    /// Fingerprint of the unit's raw bytes, recorded whenever the normalizer
    /// makes it differ in meaning from `observed_input_fingerprint`.
    pub observed_raw_fingerprint: Option<String>,
    pub observed_container_fingerprint: String,
    pub native_payload_reference: Option<String>,
    pub ingested_bytes: usize,
    /// Bytes of text the harness actually placed in model context.
    pub model_visible_bytes: Option<usize>,
    pub report: FreshnessReport,
}

pub struct ObservationView {
    pub id: u64,
    pub path: Seq<char>,
    pub provider: Seq<char>,
    pub observed_revision: Seq<char>,
    pub selector: ObservationSelector,
    pub normalizer: Normalizer,
    pub observed_input_fingerprint: Seq<char>,
    pub observed_raw_fingerprint: Option<Seq<char>>,
    pub observed_container_fingerprint: Seq<char>,
    pub native_payload_reference: Option<Seq<char>>,
    pub ingested_bytes: usize,
    pub model_visible_bytes: Option<usize>,
    pub report: FreshnessReportView,
}

impl View for Observation {
    type V = ObservationView;

    open spec fn view(&self) -> ObservationView {
        ObservationView {
            id: self.id,
            path: self.path@,
            provider: self.provider@,
            observed_revision: self.observed_revision@,
            selector: self.selector,
            normalizer: self.normalizer,
            observed_input_fingerprint: self.observed_input_fingerprint@,
            observed_raw_fingerprint: opt_str(self.observed_raw_fingerprint),
            observed_container_fingerprint: self.observed_container_fingerprint@,
            native_payload_reference: opt_str(self.native_payload_reference),
            ingested_bytes: self.ingested_bytes,
            model_visible_bytes: self.model_visible_bytes,
            report: self.report@,
        }
    }
}

impl Clone for Observation {
    fn clone(&self) -> (r: Self)
        ensures
            r@ == self@,
    {
        Observation {
            id: self.id,
            path: self.path.clone(),
            provider: self.provider.clone(),
            observed_revision: self.observed_revision.clone(),
            selector: self.selector,
            normalizer: self.normalizer,
            observed_input_fingerprint: self.observed_input_fingerprint.clone(),
            observed_raw_fingerprint: clone_opt_string(&self.observed_raw_fingerprint),
            observed_container_fingerprint: self.observed_container_fingerprint.clone(),
            native_payload_reference: clone_opt_string(&self.native_payload_reference),
            ingested_bytes: self.ingested_bytes,
            model_visible_bytes: self.model_visible_bytes,
            report: self.report.clone(),
        }
    }
}

pub struct ObservationCapture {
    pub observation: Observation,
    pub content: String,
}

pub struct ObservationCaptureOptions {
    pub selector: ObservationSelector,
    pub normalizer: Normalizer,
    pub retain_native_payload: bool,
    pub model_visible_bytes: Option<usize>,
    pub expected_raw_fingerprint: Option<String>,
}

/// The read-tool-native inputs an adapter forwards for auto-capture.
pub struct ReadCaptureRequest {
    /// One-indexed first line the native read returned. `None` reads from the top.
    pub offset: Option<usize>,
    /// Line count the native read returned. `None` runs through end of file.
    pub limit: Option<usize>,
    /// The raw selected text the model saw, harness chrome already stripped.
    pub model_visible_text: String,
    /// Total bytes delivered at the model boundary.
    pub model_visible_bytes: Option<usize>,
    /// Whether the harness reported the native read result as truncated.
    pub truncated: bool,
}

/// The outcome of a read auto-capture: skipping is a first-class value.
pub enum ReadCaptureOutcome {
    Captured(Box<ObservationCapture>),
    Skipped { reason: String },
}

pub struct RevealedObservation {
    pub observation_id: u64,
    pub path: String,
    pub provider: String,
    pub observed_revision: String,
    pub observed_container_fingerprint: String,
    pub content: String,
    pub ingested_bytes: usize,
}

/// How a finding binds to its location and whether the provider's raw
/// payload is retained.
pub struct FindingCaptureOptions {
    pub selector: ObservationSelector,
    pub normalizer: Normalizer,
    pub native_payload: Option<String>,
}

pub struct RevealedFinding {
    pub finding_id: u64,
    pub provider: String,
    pub path: String,
    pub observed_revision: String,
    pub native_payload_fingerprint: String,
    pub content: String,
}

#[derive(Clone, Copy, Debug, PartialEq, Eq, Structural)]
pub enum ClaimInputSource {
    SupportingObservation,
    DeclaredDependency,
    ConservativeDependency,
}

pub struct ClaimInput {
    pub path: String,
    pub selector: ObservationSelector,
    pub normalizer: Normalizer,
    pub recorded_input_fingerprint: String,
    /// Raw-unit fingerprint at record time.
    pub recorded_raw_fingerprint: Option<String>,
    pub source: ClaimInputSource,
}

pub struct ClaimInputView {
    pub path: Seq<char>,
    pub selector: ObservationSelector,
    pub normalizer: Normalizer,
    pub recorded_input_fingerprint: Seq<char>,
    pub recorded_raw_fingerprint: Option<Seq<char>>,
    pub source: ClaimInputSource,
}

impl View for ClaimInput {
    type V = ClaimInputView;

    open spec fn view(&self) -> ClaimInputView {
        ClaimInputView {
            path: self.path@,
            selector: self.selector,
            normalizer: self.normalizer,
            recorded_input_fingerprint: self.recorded_input_fingerprint@,
            recorded_raw_fingerprint: opt_str(self.recorded_raw_fingerprint),
            source: self.source,
        }
    }
}

impl Clone for ClaimInput {
    fn clone(&self) -> (r: Self)
        ensures
            r@ == self@,
    {
        ClaimInput {
            path: self.path.clone(),
            selector: self.selector,
            normalizer: self.normalizer,
            recorded_input_fingerprint: self.recorded_input_fingerprint.clone(),
            recorded_raw_fingerprint: clone_opt_string(&self.recorded_raw_fingerprint),
            source: self.source,
        }
    }
}

pub open spec fn inputs_view(v: Seq<ClaimInput>) -> Seq<ClaimInputView> {
    v.map_values(|x: ClaimInput| x@)
}

pub fn clone_inputs(v: &Vec<ClaimInput>) -> (r: Vec<ClaimInput>)
    ensures
        inputs_view(r@) == inputs_view(v@),
{
    let mut r: Vec<ClaimInput> = Vec::new();
    let mut i: usize = 0;
    while i < v.len()
        invariant
            i <= v.len(),
            r@.len() == i,
            forall|k: int| 0 <= k < i ==> r@[k]@ == v@[k]@,
        decreases v.len() - i,
    {
        r.push(v[i].clone());
        i = i + 1;
    }
    assert(inputs_view(r@) =~= inputs_view(v@));
    r
}

/// Whether two input lists are equal, element by element.
pub fn inputs_equal(a: &Vec<ClaimInput>, b: &Vec<ClaimInput>) -> (r: bool)
    ensures
        r == (inputs_view(a@) == inputs_view(b@)),
{
    if a.len() != b.len() {
        assert(inputs_view(a@).len() != inputs_view(b@).len());
        return false;
    }
    let mut i: usize = 0;
    while i < a.len()
        invariant
            i <= a.len(),
            a.len() == b.len(),
            forall|k: int| 0 <= k < i ==> a@[k]@ == b@[k]@,
        decreases a.len() - i,
    {
        let x = &a[i];
        let y = &b[i];
        let same = x.path == y.path && x.selector == y.selector && x.normalizer == y.normalizer
            && x.recorded_input_fingerprint == y.recorded_input_fingerprint
            && crate::text::opt_string_equal(&x.recorded_raw_fingerprint, &y.recorded_raw_fingerprint)
            && x.source == y.source;
        if !same {
            assert(inputs_view(a@)[i as int] != inputs_view(b@)[i as int]);
            return false;
        }
        i = i + 1;
    }
    assert(inputs_view(a@) =~= inputs_view(b@));
    true
}

#[derive(Clone, Copy, Debug, PartialEq, Eq, Structural)]
pub enum ClaimScopeStrategy {
    Declared,
    ConservativeSiblingFiles,
}

impl ClaimScopeStrategy {
    pub open spec fn spec_assurance_source(self) -> ScopeSource {
        match self {
            ClaimScopeStrategy::Declared => ScopeSource::Declared,
            ClaimScopeStrategy::ConservativeSiblingFiles => ScopeSource::Conservative,
        }
    }

    pub fn assurance_source(&self) -> (r: ScopeSource)
        ensures
            r == self.spec_assurance_source(),
    {
        match self {
            ClaimScopeStrategy::Declared => ScopeSource::Declared,
            ClaimScopeStrategy::ConservativeSiblingFiles => ScopeSource::Conservative,
        }
    }
}

pub enum ClaimLifecycle {
    Active,
    Superseded { replacement_claim_id: u64, reason: String },
}

pub enum ClaimLifecycleView {
    Active,
    Superseded { replacement_claim_id: u64, reason: Seq<char> },
}

impl View for ClaimLifecycle {
    type V = ClaimLifecycleView;

    open spec fn view(&self) -> ClaimLifecycleView {
        match self {
            ClaimLifecycle::Active => ClaimLifecycleView::Active,
            ClaimLifecycle::Superseded { replacement_claim_id, reason } => {
                ClaimLifecycleView::Superseded {
                    replacement_claim_id: *replacement_claim_id,
                    reason: reason@,
                }
            },
        }
    }
}

impl Clone for ClaimLifecycle {
    fn clone(&self) -> (r: Self)
        ensures
            r@ == self@,
    {
        match self {
            ClaimLifecycle::Active => ClaimLifecycle::Active,
            ClaimLifecycle::Superseded { replacement_claim_id, reason } => {
                ClaimLifecycle::Superseded {
                    replacement_claim_id: *replacement_claim_id,
                    reason: reason.clone(),
                }
            },
        }
    }
}

impl ClaimLifecycle {
    pub fn is_active(&self) -> (r: bool)
        ensures
            r == (self@ is Active),
    {
        match self {
            ClaimLifecycle::Active => true,
            _ => false,
        }
    }
}

pub struct Claim {
    pub id: u64,
    pub statement: String,
    pub supporting_observation_ids: Vec<u64>,
    pub scope_strategy: ClaimScopeStrategy,
    pub inputs: Vec<ClaimInput>,
    pub lifecycle: ClaimLifecycle,
    pub report: FreshnessReport,
}

pub struct ClaimView {
    pub id: u64,
    pub statement: Seq<char>,
    pub supporting_observation_ids: Seq<u64>,
    pub scope_strategy: ClaimScopeStrategy,
    pub inputs: Seq<ClaimInputView>,
    pub lifecycle: ClaimLifecycleView,
    pub report: FreshnessReportView,
}

impl View for Claim {
    type V = ClaimView;

    open spec fn view(&self) -> ClaimView {
        ClaimView {
            id: self.id,
            statement: self.statement@,
            supporting_observation_ids: self.supporting_observation_ids@,
            scope_strategy: self.scope_strategy,
            inputs: inputs_view(self.inputs@),
            lifecycle: self.lifecycle@,
            report: self.report@,
        }
    }
}

impl Clone for Claim {
    fn clone(&self) -> (r: Self)
        ensures
            r@ == self@,
    {
        let ids = self.supporting_observation_ids.clone();
        assert(ids@ =~= self.supporting_observation_ids@);
        Claim {
            id: self.id,
            statement: self.statement.clone(),
            supporting_observation_ids: ids,
            scope_strategy: self.scope_strategy,
            inputs: clone_inputs(&self.inputs),
            lifecycle: self.lifecycle.clone(),
            report: self.report.clone(),
        }
    }
}

/// One `rests-on` path of a recorded belief.
pub struct BeliefSupport {
    pub path: String,
    pub observation_id: u64,
    pub reused: bool,
}

/// The result of the fused belief operation.
pub struct Belief {
    pub claim: Claim,
    pub supports: Vec<BeliefSupport>,
}

pub struct Objective {
    pub intent: String,
    pub external_reference: Option<String>,
}

pub struct ObjectiveView {
    pub intent: Seq<char>,
    pub external_reference: Option<Seq<char>>,
}

impl View for Objective {
    type V = ObjectiveView;

    open spec fn view(&self) -> ObjectiveView {
        ObjectiveView { intent: self.intent@, external_reference: opt_str(self.external_reference) }
    }
}

impl Clone for Objective {
    fn clone(&self) -> (r: Self)
        ensures
            r@ == self@,
    {
        Objective {
            intent: self.intent.clone(),
            external_reference: clone_opt_string(&self.external_reference),
        }
    }
}

pub open spec fn opt_objective(o: Option<Objective>) -> Option<ObjectiveView> {
    match o {
        Some(x) => Some(x@),
        None => None,
    }
}

pub fn clone_opt_objective(o: &Option<Objective>) -> (r: Option<Objective>)
    ensures
        opt_objective(r) == opt_objective(*o),
{
    match o {
        Some(x) => Some(x.clone()),
        None => None,
    }
}

pub fn objectives_equal(a: &Option<Objective>, b: &Option<Objective>) -> (r: bool)
    ensures
        r == (opt_objective(*a) == opt_objective(*b)),
{
    match (a, b) {
        (Some(x), Some(y)) => x.intent == y.intent && crate::text::opt_string_equal(
            &x.external_reference,
            &y.external_reference,
        ),
        (None, None) => true,
        _ => false,
    }
}

pub struct WorkingSetEntry {
    pub observation_id: u64,
    pub reason: String,
    /// Monotonic focus ordinal stamped at projection time from the order of
    /// focus events: higher means focused more recently.
    pub focus_sequence: u64,
}

pub struct WorkingSetEntryView {
    pub observation_id: u64,
    pub reason: Seq<char>,
    pub focus_sequence: u64,
}

impl View for WorkingSetEntry {
    type V = WorkingSetEntryView;

    open spec fn view(&self) -> WorkingSetEntryView {
        WorkingSetEntryView {
            observation_id: self.observation_id,
            reason: self.reason@,
            focus_sequence: self.focus_sequence,
        }
    }
}

impl Clone for WorkingSetEntry {
    fn clone(&self) -> (r: Self)
        ensures
            r@ == self@,
    {
        WorkingSetEntry {
            observation_id: self.observation_id,
            reason: self.reason.clone(),
            focus_sequence: self.focus_sequence,
        }
    }
}

#[derive(Clone, Copy, Debug, PartialEq, Eq, Structural)]
pub enum EvidenceOutcome {
    Passed,
    Failed,
}

pub struct Evidence {
    pub id: u64,
    pub transaction_id: u64,
    pub claim_id: u64,
    pub check_name: String,
    pub invocation: String,
    pub provider: String,
    pub outcome: EvidenceOutcome,
    pub inputs: Vec<ClaimInput>,
    /// The candidate the transaction owned when this evidence was recorded.
    pub candidate_fingerprint: String,
    pub report: FreshnessReport,
}

pub struct EvidenceView {
    pub id: u64,
    pub transaction_id: u64,
    pub claim_id: u64,
    pub check_name: Seq<char>,
    pub invocation: Seq<char>,
    pub provider: Seq<char>,
    pub outcome: EvidenceOutcome,
    pub inputs: Seq<ClaimInputView>,
    pub candidate_fingerprint: Seq<char>,
    pub report: FreshnessReportView,
}

impl View for Evidence {
    type V = EvidenceView;

    open spec fn view(&self) -> EvidenceView {
        EvidenceView {
            id: self.id,
            transaction_id: self.transaction_id,
            claim_id: self.claim_id,
            check_name: self.check_name@,
            invocation: self.invocation@,
            provider: self.provider@,
            outcome: self.outcome,
            inputs: inputs_view(self.inputs@),
            candidate_fingerprint: self.candidate_fingerprint@,
            report: self.report@,
        }
    }
}

impl Clone for Evidence {
    fn clone(&self) -> (r: Self)
        ensures
            r@ == self@,
    {
        Evidence {
            id: self.id,
            transaction_id: self.transaction_id,
            claim_id: self.claim_id,
            check_name: self.check_name.clone(),
            invocation: self.invocation.clone(),
            provider: self.provider.clone(),
            outcome: self.outcome,
            inputs: clone_inputs(&self.inputs),
            candidate_fingerprint: self.candidate_fingerprint.clone(),
            report: self.report.clone(),
        }
    }
}

/// Severity of a provider-reported finding, ordered most-urgent first.
#[derive(Clone, Copy, Debug, PartialEq, Eq, Structural)]
pub enum FindingSeverity {
    Error,
    Warning,
    Info,
    Hint,
}

impl FindingSeverity {
    pub open spec fn spec_rank(self) -> u8 {
        match self {
            FindingSeverity::Error => 0,
            FindingSeverity::Warning => 1,
            FindingSeverity::Info => 2,
            FindingSeverity::Hint => 3,
        }
    }

    /// The position of this severity in most-urgent-first order.
    pub fn rank(&self) -> (r: u8)
        ensures
            r == self.spec_rank(),
    {
        match self {
            FindingSeverity::Error => 0,
            FindingSeverity::Warning => 1,
            FindingSeverity::Info => 2,
            FindingSeverity::Hint => 3,
        }
    }
}

/// How a finding has been dispositioned; orthogonal to freshness.
pub enum FindingDisposition {
    Open,
    Resolved { actor: String, rationale: String },
    Deferred { actor: String, rationale: String },
    Suppressed { actor: String, rationale: String },
    FalsePositive { actor: String, rationale: String },
}

pub enum FindingDispositionView {
    Open,
    Resolved { actor: Seq<char>, rationale: Seq<char> },
    Deferred { actor: Seq<char>, rationale: Seq<char> },
    Suppressed { actor: Seq<char>, rationale: Seq<char> },
    FalsePositive { actor: Seq<char>, rationale: Seq<char> },
}

impl View for FindingDisposition {
    type V = FindingDispositionView;

    open spec fn view(&self) -> FindingDispositionView {
        match self {
            FindingDisposition::Open => FindingDispositionView::Open,
            FindingDisposition::Resolved { actor, rationale } => {
                FindingDispositionView::Resolved { actor: actor@, rationale: rationale@ }
            },
            FindingDisposition::Deferred { actor, rationale } => {
                FindingDispositionView::Deferred { actor: actor@, rationale: rationale@ }
            },
            FindingDisposition::Suppressed { actor, rationale } => {
                FindingDispositionView::Suppressed { actor: actor@, rationale: rationale@ }
            },
            FindingDisposition::FalsePositive { actor, rationale } => {
                FindingDispositionView::FalsePositive { actor: actor@, rationale: rationale@ }
            },
        }
    }
}

impl Clone for FindingDisposition {
    fn clone(&self) -> (r: Self)
        ensures
            r@ == self@,
    {
        match self {
            FindingDisposition::Open => FindingDisposition::Open,
            FindingDisposition::Resolved { actor, rationale } => FindingDisposition::Resolved {
                actor: actor.clone(),
                rationale: rationale.clone(),
            },
            FindingDisposition::Deferred { actor, rationale } => FindingDisposition::Deferred {
                actor: actor.clone(),
                rationale: rationale.clone(),
            },
            FindingDisposition::Suppressed { actor, rationale } => FindingDisposition::Suppressed {
                actor: actor.clone(),
                rationale: rationale.clone(),
            },
            FindingDisposition::FalsePositive { actor, rationale } => {
                FindingDisposition::FalsePositive {
                    actor: actor.clone(),
                    rationale: rationale.clone(),
                }
            },
        }
    }
}

impl FindingDisposition {
    pub fn is_open(&self) -> (r: bool)
        ensures
            r == (self@ is Open),
    {
        match self {
            FindingDisposition::Open => true,
            _ => false,
        }
    }
}

/// A provider-reported issue bound to a repository location.
pub struct Finding {
    pub id: u64,
    pub provider: String,
    pub severity: FindingSeverity,
    pub rule: Option<String>,
    pub message: String,
    pub path: String,
    pub selector: ObservationSelector,
    pub normalizer: Normalizer,
    pub observed_revision: String,
    pub observed_input_fingerprint: String,
    pub observed_raw_fingerprint: Option<String>,
    pub observed_container_fingerprint: String,
    /// Reference to the provider's own raw output, retained so the original
    /// result stays retrievable.
    pub native_payload_reference: Option<String>,
    /// Digest of that native payload.
    pub native_payload_fingerprint: Option<String>,
    pub disposition: FindingDisposition,
    pub report: FreshnessReport,
}

pub struct FindingView {
    pub id: u64,
    pub provider: Seq<char>,
    pub severity: FindingSeverity,
    pub rule: Option<Seq<char>>,
    pub message: Seq<char>,
    pub path: Seq<char>,
    pub selector: ObservationSelector,
    pub normalizer: Normalizer,
    pub observed_revision: Seq<char>,
    pub observed_input_fingerprint: Seq<char>,
    pub observed_raw_fingerprint: Option<Seq<char>>,
    pub observed_container_fingerprint: Seq<char>,
    pub native_payload_reference: Option<Seq<char>>,
    pub native_payload_fingerprint: Option<Seq<char>>,
    pub disposition: FindingDispositionView,
    pub report: FreshnessReportView,
}

impl View for Finding {
    type V = FindingView;

    open spec fn view(&self) -> FindingView {
        FindingView {
            id: self.id,
            provider: self.provider@,
            severity: self.severity,
            rule: opt_str(self.rule),
            message: self.message@,
            path: self.path@,
            selector: self.selector,
            normalizer: self.normalizer,
            observed_revision: self.observed_revision@,
            observed_input_fingerprint: self.observed_input_fingerprint@,
            observed_raw_fingerprint: opt_str(self.observed_raw_fingerprint),
            observed_container_fingerprint: self.observed_container_fingerprint@,
            native_payload_reference: opt_str(self.native_payload_reference),
            native_payload_fingerprint: opt_str(self.native_payload_fingerprint),
            disposition: self.disposition@,
            report: self.report@,
        }
    }
}

impl Clone for Finding {
    fn clone(&self) -> (r: Self)
        ensures
            r@ == self@,
    {
        Finding {
            id: self.id,
            provider: self.provider.clone(),
            severity: self.severity,
            rule: clone_opt_string(&self.rule),
            message: self.message.clone(),
            path: self.path.clone(),
            selector: self.selector,
            normalizer: self.normalizer,
            observed_revision: self.observed_revision.clone(),
            observed_input_fingerprint: self.observed_input_fingerprint.clone(),
            observed_raw_fingerprint: clone_opt_string(&self.observed_raw_fingerprint),
            observed_container_fingerprint: self.observed_container_fingerprint.clone(),
            native_payload_reference: clone_opt_string(&self.native_payload_reference),
            native_payload_fingerprint: clone_opt_string(&self.native_payload_fingerprint),
            disposition: self.disposition.clone(),
            report: self.report.clone(),
        }
    }
}

#[derive(Clone, Copy, Debug, PartialEq, Eq, Structural)]
pub enum TransactionState {
    Open,
    Accepted,
    Reverted,
}

pub struct Mutation {
    pub path: String,
    pub before_fingerprint: String,
    pub after_fingerprint: String,
}

pub struct MutationView {
    pub path: Seq<char>,
    pub before_fingerprint: Seq<char>,
    pub after_fingerprint: Seq<char>,
}

impl View for Mutation {
    type V = MutationView;

    open spec fn view(&self) -> MutationView {
        MutationView {
            path: self.path@,
            before_fingerprint: self.before_fingerprint@,
            after_fingerprint: self.after_fingerprint@,
        }
    }
}

impl Clone for Mutation {
    fn clone(&self) -> (r: Self)
        ensures
            r@ == self@,
    {
        Mutation {
            path: self.path.clone(),
            before_fingerprint: self.before_fingerprint.clone(),
            after_fingerprint: self.after_fingerprint.clone(),
        }
    }
}

pub open spec fn mutations_view(v: Seq<Mutation>) -> Seq<MutationView> {
    v.map_values(|m: Mutation| m@)
}

pub fn clone_mutations(v: &Vec<Mutation>) -> (r: Vec<Mutation>)
    ensures
        mutations_view(r@) == mutations_view(v@),
{
    let mut r: Vec<Mutation> = Vec::new();
    let mut i: usize = 0;
    while i < v.len()
        invariant
            i <= v.len(),
            r@.len() == i,
            forall|k: int| 0 <= k < i ==> r@[k]@ == v@[k]@,
        decreases v.len() - i,
    {
        r.push(v[i].clone());
        i = i + 1;
    }
    assert(mutations_view(r@) =~= mutations_view(v@));
    r
}

pub struct Transaction {
    pub id: u64,
    /// Why this change exists, recorded at `begin`.
    pub intent: Option<String>,
    pub base_revision: String,
    pub initial_worktree_fingerprint: String,
    pub acceptance_claim_ids: Vec<u64>,
    pub evidence_ids: Vec<u64>,
    /// Findings this transaction addresses.
    pub finding_ids: Vec<u64>,
    /// Known residual risks the author chose to accept, in record order.
    pub residual_risks: Vec<String>,
    pub mutations: Vec<Mutation>,
    pub state: TransactionState,
    pub last_rejection: Option<String>,
}

pub struct TransactionView {
    pub id: u64,
    pub intent: Option<Seq<char>>,
    pub base_revision: Seq<char>,
    pub initial_worktree_fingerprint: Seq<char>,
    pub acceptance_claim_ids: Seq<u64>,
    pub evidence_ids: Seq<u64>,
    pub finding_ids: Seq<u64>,
    pub residual_risks: Seq<Seq<char>>,
    pub mutations: Seq<MutationView>,
    pub state: TransactionState,
    pub last_rejection: Option<Seq<char>>,
}

impl View for Transaction {
    type V = TransactionView;

    open spec fn view(&self) -> TransactionView {
        TransactionView {
            id: self.id,
            intent: opt_str(self.intent),
            base_revision: self.base_revision@,
            initial_worktree_fingerprint: self.initial_worktree_fingerprint@,
            acceptance_claim_ids: self.acceptance_claim_ids@,
            evidence_ids: self.evidence_ids@,
            finding_ids: self.finding_ids@,
            residual_risks: strings_view(self.residual_risks@),
            mutations: mutations_view(self.mutations@),
            state: self.state,
            last_rejection: opt_str(self.last_rejection),
        }
    }
}

impl Clone for Transaction {
    fn clone(&self) -> (r: Self)
        ensures
            r@ == self@,
    {
        let a = self.acceptance_claim_ids.clone();
        let e = self.evidence_ids.clone();
        let f = self.finding_ids.clone();
        assert(a@ =~= self.acceptance_claim_ids@);
        assert(e@ =~= self.evidence_ids@);
        assert(f@ =~= self.finding_ids@);
        Transaction {
            id: self.id,
            intent: clone_opt_string(&self.intent),
            base_revision: self.base_revision.clone(),
            initial_worktree_fingerprint: self.initial_worktree_fingerprint.clone(),
            acceptance_claim_ids: a,
            evidence_ids: e,
            finding_ids: f,
            residual_risks: crate::text::clone_strings(&self.residual_risks),
            mutations: clone_mutations(&self.mutations),
            state: self.state,
            last_rejection: clone_opt_string(&self.last_rejection),
        }
    }
}

/// The bytes a candidate fingerprint is folded over: each mutation's path,
/// a NUL, its after-fingerprint and a newline, in the given order.
pub open spec fn candidate_material(entries: Seq<MutationView>) -> Seq<u8>
    decreases entries.len(),
{
    if entries.len() == 0 {
        Seq::empty()
    } else {
        candidate_material(entries.drop_last()) + crate::text::utf8(entries.last().path)
            + seq![0u8] + crate::text::utf8(entries.last().after_fingerprint) + seq![10u8]
    }
}

/// Insert `m` into a path-ordered listing after every element whose path is
/// not greater than its own.
pub open spec fn insert_by_path(s: Seq<MutationView>, m: MutationView) -> Seq<MutationView>
    decreases s.len(),
{
    if s.len() == 0 || !path_less_spec(m.path, s.last().path) {
        s.push(m)
    } else {
        insert_by_path(s.drop_last(), m).push(s.last())
    }
}

/// The mutations in path order, equal paths keeping their applied order.
pub open spec fn sort_by_path(s: Seq<MutationView>) -> Seq<MutationView>
    decreases s.len(),
{
    if s.len() == 0 {
        Seq::empty()
    } else {
        insert_by_path(sort_by_path(s.drop_last()), s.last())
    }
}

proof fn lemma_insert_by_path_at(s: Seq<MutationView>, k: int, m: MutationView)
    requires
        0 <= k <= s.len(),
        k > 0 ==> !path_less_spec(m.path, s[k - 1].path),
        forall|j: int| k <= j < s.len() ==> path_less_spec(m.path, #[trigger] s[j].path),
    ensures
        insert_by_path(s, m) == s.insert(k, m),
    decreases s.len(),
{
    if k == s.len() {
        assert(s.insert(k, m) =~= s.push(m));
    } else {
        let p = s.drop_last();
        lemma_insert_by_path_at(p, k, m);
        assert(s.insert(k, m) =~= p.insert(k, m).push(s.last()));
    }
}

impl Transaction {
    /// A single content address for the transaction's owned candidate state:
    /// the `(path, after_fingerprint)` mutation bytes folded in path order.
    /// A transaction with no mutations yields the digest of empty material.
    pub fn candidate_fingerprint(&self) -> (r: String)
        ensures
            r@ == hex_digest_spec(candidate_material(sort_by_path(mutations_view(self.mutations@)))),
    {
        let sorted = sort_mutations_by_path(&self.mutations);
        let mut material: Vec<u8> = Vec::new();
        let mut i: usize = 0;
        while i < sorted.len()
            invariant
                i <= sorted.len(),
                material@ == candidate_material(mutations_view(sorted@).take(i as int)),
            decreases sorted.len() - i,
        {
            let m = &sorted[i];
            let p = crate::text::str_bytes(m.path.as_str());
            let a = crate::text::str_bytes(m.after_fingerprint.as_str());
            crate::text::append_bytes(&mut material, &p);
            material.push(0u8);
            crate::text::append_bytes(&mut material, &a);
            material.push(10u8);
            proof {
                let t = mutations_view(sorted@).take(i + 1);
                assert(t.drop_last() =~= mutations_view(sorted@).take(i as int));
                assert(t.last() == sorted@[i as int]@);
            }
            i = i + 1;
        }
        assert(mutations_view(sorted@).take(sorted.len() as int) =~= mutations_view(sorted@));
        hex_digest(&material)
    }
}

/// Insertion sort of mutations by path, stable among equal paths.
fn sort_mutations_by_path(v: &Vec<Mutation>) -> (r: Vec<Mutation>)
    ensures
        mutations_view(r@) == sort_by_path(mutations_view(v@)),
{
    let mut r: Vec<Mutation> = Vec::new();
    let mut i: usize = 0;
    assert(mutations_view(v@).take(0) =~= Seq::<MutationView>::empty());
    assert(mutations_view(r@) =~= Seq::<MutationView>::empty());
    while i < v.len()
        invariant
            i <= v.len(),
            mutations_view(r@) == sort_by_path(mutations_view(v@).take(i as int)),
        decreases v.len() - i,
    {
        let m = v[i].clone();
        let mut k: usize = r.len();
        while k > 0 && path_less(m.path.as_str(), r[k - 1].path.as_str())
            invariant
                k <= r.len(),
                forall|j: int| k <= j < r.len() ==> path_less_spec(m.path@, #[trigger] r@[j].path@),
            decreases k,
        {
            k = k - 1;
        }
        let ghost old_r = mutations_view(r@);
        let ghost mv = m@;
        proof {
            lemma_insert_by_path_at(old_r, k as int, mv);
            let t = mutations_view(v@).take(i + 1);
            assert(t.drop_last() =~= mutations_view(v@).take(i as int));
            assert(t.last() == mv);
        }
        r.insert(k, m);
        assert(mutations_view(r@) =~= old_r.insert(k as int, mv));
        i = i + 1;
    }
    assert(mutations_view(v@).take(v.len() as int) =~= mutations_view(v@));
    r
}

/// A named point in the event log.
pub struct CheckpointMarker {
    pub label: String,
    pub note: Option<String>,
    pub git_revision: String,
    pub objective: Option<Objective>,
    pub sequence: u64,
}

pub struct CheckpointMarkerView {
    pub label: Seq<char>,
    pub note: Option<Seq<char>>,
    pub git_revision: Seq<char>,
    pub objective: Option<ObjectiveView>,
    pub sequence: u64,
}

impl View for CheckpointMarker {
    type V = CheckpointMarkerView;

    open spec fn view(&self) -> CheckpointMarkerView {
        CheckpointMarkerView {
            label: self.label@,
            note: opt_str(self.note),
            git_revision: self.git_revision@,
            objective: opt_objective(self.objective),
            sequence: self.sequence,
        }
    }
}

impl Clone for CheckpointMarker {
    fn clone(&self) -> (r: Self)
        ensures
            r@ == self@,
    {
        CheckpointMarker {
            label: self.label.clone(),
            note: clone_opt_string(&self.note),
            git_revision: self.git_revision.clone(),
            objective: clone_opt_objective(&self.objective),
            sequence: self.sequence,
        }
    }
}

/// A reference to one workspace entity, as the wake summary names it.
#[derive(Clone, Copy, Debug, PartialEq, Eq, Structural, PartialOrd, Ord, Hash)]
pub enum EntityRef {
    Claim(u64),
    Observation(u64),
    Finding(u64),
    Transaction(u64),
    Knowledge(u64),
}

/// Whether a governing source still reads as it did when it was bound.
#[derive(Clone, Copy, Debug, PartialEq, Eq, Structural, Hash)]
pub enum SourceState {
    Current,
    Changed,
    Unavailable,
    Unknown,
}

} // verus!

//! End-to-end scenarios of the workspace, run against an in-memory
//! repository: each file's bytes stand where the commands would read them,
//! and every verdict is computed from them as a command would.

use agent_workspace::digest::hex_digest;
use agent_workspace::event::{Event, EventRecord};
use agent_workspace::locate::{project_identity, resolve_state_root};
use agent_workspace::model::{
    BeliefSupport, Claim, ClaimInput, ClaimLifecycle, ClaimScopeStrategy, EvidenceOutcome, Finding,
    FindingCaptureOptions, FindingDisposition, FindingSeverity, FreshnessWithinScope, Normalizer,
    Observation, ObservationCapture, ObservationCaptureOptions, ObservationSelector,
    ReadCaptureOutcome, ReadCaptureRequest, TransactionState,
};
use agent_workspace::payloads::RetainedPayload;
use agent_workspace::normalizers::NormalizerConfig;
use agent_workspace::reconcile::{select_observation_unit, unit_fingerprint, LocationRead};
use agent_workspace::belief::reuses;
use agent_workspace::workspace::{EntityKind, Reconciliation, Verdict, Workspace};

const REVISION: &str = "0123456789abcdef0123456789abcdef01234567";

/// The default fixture: a two-file Rust crate.
fn fixture_files() -> Vec<(&'static str, &'static str)> {
    vec![
        ("src/lib.rs", "pub fn foo() -> i32 { 1 }\n"),
        ("src/helper.rs", "pub fn helper() -> i32 { 1 }\n"),
    ]
}

fn file<'a>(files: &'a [(&str, &str)], path: &str) -> &'a [u8] {
    files.iter().find(|(p, _)| *p == path).map(|(_, c)| c.as_bytes()).unwrap()
}

fn fresh_workspace() -> Workspace {
    Workspace::open("/fixture/repository".to_owned(), "/fixture/workspace-state".to_owned(), Vec::new())
        .ok()
        .unwrap()
}

fn replay(log: &[EventRecord]) -> Workspace {
    Workspace::open(
        "/fixture/repository".to_owned(),
        "/fixture/workspace-state".to_owned(),
        log.iter().map(|r| r.duplicate()).collect(),
    )
    .ok()
    .unwrap()
}

/// The unit a formatter gives back for already formatted text: itself.
fn formatted(unit: &[u8], normalizer: Normalizer) -> Option<Vec<u8>> {
    if normalizer == Normalizer::Raw {
        None
    } else {
        Some(unit.to_vec())
    }
}

/// `observe --path PATH [--range ..] [--model-visible-bytes ..]` with the
/// automatically detected normalizer.
fn observe_with(
    w: &mut Workspace,
    files: &[(&str, &str)],
    path: &str,
    provider: &str,
    selector: ObservationSelector,
    model_visible_bytes: Option<usize>,
    expected_raw_fingerprint: Option<String>,
) -> Result<ObservationCapture, agent_workspace::error::WorkspaceError> {
    let container = file(files, path);
    let normalizer = NormalizerConfig::builtin_default().for_path(path);
    let canonical = select_observation_unit(container, &selector)
        .ok()
        .and_then(|unit| formatted(&unit, normalizer));
    let options = ObservationCaptureOptions {
        selector,
        normalizer,
        retain_native_payload: false,
        model_visible_bytes,
        expected_raw_fingerprint,
    };
    w.capture_file_observation(path, provider.to_owned(), options, container, canonical.as_ref(), REVISION.to_owned(), None)
}

fn observe(w: &mut Workspace, files: &[(&str, &str)], path: &str) -> Observation {
    observe_with(w, files, path, "filesystem", ObservationSelector::WholeFile, None, None)
        .ok()
        .unwrap()
        .observation
}

/// Re-read a claim input from the repository as a command would.
fn read_input(files: &[(&str, &str)], input: &ClaimInput) -> LocationRead {
    let container = file(files, &input.path);
    match select_observation_unit(container, &input.selector) {
        Ok(unit) => LocationRead::Read {
            unit: unit_fingerprint(
                &unit,
                input.normalizer,
                input.recorded_raw_fingerprint.as_deref(),
                &input.recorded_input_fingerprint,
                formatted(&unit, input.normalizer).as_ref(),
            ),
            container: hex_digest(container),
        },
        Err(_) => LocationRead::Unverifiable,
    }
}

/// `claim --statement S --observation ID`.
fn claim(w: &mut Workspace, files: &[(&str, &str)], statement: &str, ids: Vec<u64>) -> Result<Claim, agent_workspace::error::WorkspaceError> {
    let inputs = w.planned_claim_inputs(&ids, &Vec::new(), &Vec::new(), ClaimScopeStrategy::Declared);
    let reads: Vec<LocationRead> = inputs.iter().map(|i| read_input(files, i)).collect();
    w.record_claim(statement.to_owned(), ids, Vec::new(), REVISION, &reads)
}

fn evidence(w: &mut Workspace, files: &[(&str, &str)], transaction_id: u64, claim: &Claim) {
    let reads: Vec<LocationRead> = claim.inputs.iter().map(|i| read_input(files, i)).collect();
    w.record_evidence(
        transaction_id,
        claim.id,
        "fixture-check".to_owned(),
        "fixture check".to_owned(),
        "imported".to_owned(),
        EvidenceOutcome::Passed,
        REVISION,
        &reads,
        None,
    )
    .ok()
    .unwrap();
}

fn read_request(offset: Option<usize>, limit: Option<usize>, text: &str, bytes: Option<usize>) -> ReadCaptureRequest {
    ReadCaptureRequest {
        offset,
        limit,
        model_visible_text: text.to_owned(),
        model_visible_bytes: bytes,
        truncated: false,
    }
}

fn observe_read(w: &mut Workspace, files: &[(&str, &str)], path: &str, provider: &str, request: &ReadCaptureRequest) -> ReadCaptureOutcome {
    let container = file(files, path);
    let normalizer = NormalizerConfig::builtin_default().for_path(path);
    w.capture_read_observation(path, provider.to_owned(), request, container, normalizer, None, REVISION.to_owned())
        .ok()
        .unwrap()
}

#[test]
fn explicit_workspace_override_bypasses_resolution() {
    // The legacy `--workspace` path is honored verbatim.
    let explicit = "/fixture/verbatim-state";
    let identity = project_identity("/fixture/repository/.git");
    let resolved = resolve_state_root(Some(explicit), Some("/tmp/state"), None, None, None, &identity);
    assert_eq!(resolved.ok(), Some(explicit.to_owned()));
}

#[test]
fn auto_normalizer_detects_rustfmt_for_rust_and_none_otherwise() {
    let files = [("src/task.rs", "pub fn f() -> i32 { 1 }\n"), ("docs/notes.md", "# notes\n")];
    let mut w = fresh_workspace();
    let rust = observe(&mut w, &files, "src/task.rs");
    assert_eq!(rust.normalizer, Normalizer::Rustfmt);
    assert!(
        rust.observed_raw_fingerprint.is_some(),
        "a normalized record must carry the raw fingerprint for the reconcile fast path"
    );
    let markdown = observe(&mut w, &files, "docs/notes.md");
    assert_eq!(markdown.normalizer, Normalizer::Raw);
    assert_eq!(
        markdown.observed_raw_fingerprint, None,
        "a byte-mode record needs no separate raw fingerprint"
    );
}

#[test]
fn observe_read_whole_file_records_whole_file_scope() {
    let files = [("src/notes.txt", "alpha\nβeta\n")];
    let visible = "alpha\nβeta\n";
    let mut w = fresh_workspace();
    let request = read_request(None, None, visible, None);
    match observe_read(&mut w, &files, "src/notes.txt", "editor.read", &request) {
        ReadCaptureOutcome::Captured(capture) => {
            assert_eq!(capture.observation.selector, ObservationSelector::WholeFile);
            assert_eq!(capture.observation.model_visible_bytes, Some(visible.len()));
            assert_eq!(capture.content, visible);
        }
        ReadCaptureOutcome::Skipped { reason } => panic!("skipped: {reason}"),
    }
}

#[test]
fn observe_read_bounded_maps_lines_to_utf8_byte_range() {
    let files = [("src/example.txt", "zero\nαlpha\nbeta\ntail\n")];
    let selected = "αlpha\nbeta";
    let mut w = fresh_workspace();
    let request = read_request(Some(2), Some(2), selected, Some(64));
    match observe_read(&mut w, &files, "src/example.txt", "read", &request) {
        ReadCaptureOutcome::Captured(capture) => {
            assert_eq!(
                capture.observation.selector,
                ObservationSelector::ByteRange { start: "zero\n".len(), end: "zero\nαlpha\nbeta".len() }
            );
            assert_eq!(
                capture.observation.model_visible_bytes,
                Some(64),
                "adapter may preserve model-boundary chrome bytes while matching stripped text"
            );
            assert_eq!(capture.content, selected);
        }
        ReadCaptureOutcome::Skipped { reason } => panic!("skipped: {reason}"),
    }
}

#[test]
fn observe_read_rejects_unstripped_harness_chrome() {
    let files = [("src/example.txt", "zero\nαlpha\nbeta\ntail\n")];
    let with_chrome = "αlpha\nbeta\n\n[1 more lines in file. Use offset=4 to continue.]";
    let mut w = fresh_workspace();
    let request = read_request(Some(2), Some(2), with_chrome, None);
    match observe_read(&mut w, &files, "src/example.txt", "read", &request) {
        ReadCaptureOutcome::Skipped { reason } => assert_eq!(
            reason,
            "model-visible read result does not match the current file selection"
        ),
        ReadCaptureOutcome::Captured(_) => panic!("unstripped chrome was captured"),
    }
}

#[test]
fn pi_read_capture_persists_the_model_visible_accounting_boundary() {
    let files = fixture_files();
    let mut w = fresh_workspace();
    let range = ObservationSelector::ByteRange { start: 0, end: 3 };
    let captured = observe_with(&mut w, &files, "src/lib.rs", "pi.read", range, Some(57), None)
        .ok()
        .unwrap();
    assert_eq!(captured.observation.provider, "pi.read");
    assert_eq!(captured.observation.ingested_bytes, 3);
    assert_eq!(captured.observation.model_visible_bytes, Some(57));
    assert_eq!(captured.observation.native_payload_reference, None);

    let status = w.resume_status(&Vec::new()).ok().unwrap();
    assert_eq!(status.observations[0].model_visible_bytes, Some(57));

    let raced = observe_with(&mut w, &files, "src/lib.rs", "filesystem", range, None, Some("0".repeat(64)));
    match raced {
        Err(error) => assert!(error
            .message()
            .contains("selected input changed after the provider result was finalized")),
        Ok(_) => panic!("a raced capture was recorded"),
    }
}

#[test]
fn equal_bytes_at_different_ranges_have_distinct_coverage() {
    let source = "fn foo(value: i32) -> i32 { value }\nfn bar(value: i32) -> i32 { value }\n";
    let files = [("src/task.rs", source)];
    let first = source.find("i32").unwrap();
    let second = source[first + 3..].find("i32").unwrap() + first + 3;
    let mut w = fresh_workspace();
    let mut captures = Vec::new();
    for start in [first, second] {
        let range = ObservationSelector::ByteRange { start, end: start + 3 };
        captures.push(observe_with(&mut w, &files, "src/task.rs", "filesystem", range, None, None).ok().unwrap());
    }
    let (a, b) = (&captures[0].observation, &captures[1].observation);
    assert_eq!(a.observed_input_fingerprint, b.observed_input_fingerprint);
    let units = |o: &Observation| -> Vec<(String, ObservationSelector)> {
        o.report
            .operational_coverage
            .mediated_units
            .iter()
            .map(|u| (u.path.clone(), u.selector))
            .collect()
    };
    assert_ne!(units(a), units(b));
    assert_ne!(
        a.report.operational_coverage.reconciliation_fingerprint,
        b.report.operational_coverage.reconciliation_fingerprint
    );
    let ids = [a.id, b.id];
    let claims: Vec<Claim> = ids
        .iter()
        .map(|id| claim(&mut w, &files, "selected type is i32", vec![*id]).ok().unwrap())
        .collect();
    assert_ne!(
        claims[0].report.operational_coverage.reconciliation_fingerprint,
        claims[1].report.operational_coverage.reconciliation_fingerprint
    );
}

#[test]
fn delta_without_a_label_uses_the_latest_checkpoint() {
    let files = fixture_files();
    let mut w = fresh_workspace();
    let lib = observe(&mut w, &files, "src/lib.rs");
    w.checkpoint("first".to_owned(), None, REVISION.to_owned(), &Vec::new()).ok().unwrap();
    let middle = claim(&mut w, &files, "foo returns one", vec![lib.id]).ok().unwrap();
    w.checkpoint("second".to_owned(), None, REVISION.to_owned(), &Vec::new()).ok().unwrap();
    let late = claim(&mut w, &files, "foo is a function", vec![lib.id]).ok().unwrap();

    let latest = w.delta_since(None, &Vec::new()).ok().unwrap();
    assert_eq!(latest.checkpoint.label, "second");
    let ids = |claims: &[Claim]| -> Vec<u64> { claims.iter().map(|c| c.id).collect() };
    assert_eq!(ids(&latest.claims_recorded), vec![late.id]);

    let from_first = w.delta_since(Some("first"), &Vec::new()).ok().unwrap();
    assert_eq!(ids(&from_first.claims_recorded), vec![middle.id, late.id]);

    let brief = w.delta_brief_since(None, &Vec::new()).ok().unwrap();
    assert_eq!(brief.checkpoint.label, "second");
    assert_eq!(brief.claims_recorded.total, 1);
    assert_eq!(brief.claims_recorded.recent_ids[0], late.id);
}

#[test]
fn checkpoint_rejects_duplicate_labels_and_records_objective_change() {
    let mut w = fresh_workspace();
    w.bind_objective("ship the delta view".to_owned(), None).ok().unwrap();
    w.checkpoint("start".to_owned(), None, REVISION.to_owned(), &Vec::new()).ok().unwrap();
    match w.checkpoint("start".to_owned(), None, REVISION.to_owned(), &Vec::new()) {
        Err(error) => assert!(error.message().contains("already used")),
        Ok(_) => panic!("a duplicate label was accepted"),
    }
    w.bind_objective("ship the read hook".to_owned(), None).ok().unwrap();

    let delta = w.delta_since(None, &Vec::new()).ok().unwrap();
    assert_eq!(
        delta.checkpoint.objective.map(|o| (o.intent, o.external_reference)),
        Some(("ship the delta view".to_owned(), None))
    );
    let change = delta.objective_change.expect("objective changed");
    assert_eq!(change.before.unwrap().intent, "ship the delta view");
    assert_eq!(change.after.unwrap().intent, "ship the read hook");
}

#[test]
fn claim_supersession_rejects_unsafe_lifecycle_transitions_and_replay() {
    let files = fixture_files();
    let mut w = fresh_workspace();
    let observation = observe(&mut w, &files, "src/lib.rs");
    let mut claims = Vec::new();
    for statement in ["claim a", "claim b", "claim c", "claim d"] {
        claims.push(claim(&mut w, &files, statement, vec![observation.id]).ok().unwrap());
    }
    let current = Verdict {
        freshness: FreshnessWithinScope::Current,
        reason: "recorded claim inputs unchanged".to_owned(),
        reconciliation_fingerprint: claims[0].report.operational_coverage.reconciliation_fingerprint.clone(),
    };
    let supersede = |w: &mut Workspace, id: u64, replacement: u64, reason: &str| {
        w.supersede_claim(id, replacement, reason.to_owned(), &current)
            .map_err(|error| error.message())
    };

    for (claim_id, replacement_id, reason, expected) in [
        (claims[0].id, claims[1].id, "", "must not be empty"),
        (claims[0].id, claims[0].id, "self replacement", "cannot supersede itself"),
    ] {
        let failure = supersede(&mut w, claim_id, replacement_id, reason).err().unwrap();
        assert!(failure.contains(expected), "{failure}");
    }

    supersede(&mut w, claims[0].id, claims[1].id, "b replaces a").ok().unwrap();
    let superseded_replacement = supersede(&mut w, claims[2].id, claims[0].id, "invalid replacement")
        .err()
        .unwrap();
    assert!(superseded_replacement.contains("replacement claim 0 is superseded"));
    supersede(&mut w, claims[1].id, claims[2].id, "c replaces b").ok().unwrap();

    let historical_transaction = w
        .begin_transaction("fixture transaction intent".to_owned(), vec![claims[0].id], REVISION.to_owned(), "wt".to_owned())
        .map_err(|error| error.message())
        .err()
        .unwrap();
    assert!(historical_transaction.contains("acceptance claim 0 is superseded"));

    w.begin_transaction("fixture transaction intent".to_owned(), vec![claims[3].id], REVISION.to_owned(), "wt".to_owned())
        .ok()
        .unwrap();
    let open_transaction = supersede(&mut w, claims[3].id, claims[2].id, "cannot retire open acceptance")
        .err()
        .unwrap();
    assert!(open_transaction.contains("belongs to an open transaction"));

    let mut log: Vec<EventRecord> = w.log().iter().map(|r| r.duplicate()).collect();
    let sequence = log.len() as u64;
    log.push(EventRecord {
        schema_version: 2,
        sequence,
        event: Event::ClaimSuperseded {
            claim_id: claims[3].id,
            replacement_claim_id: claims[2].id,
            reason: "invalid concurrent retirement".to_owned(),
        },
    });
    match Workspace::open("/fixture/repository".to_owned(), "/fixture/workspace-state".to_owned(), log) {
        Err(error) => assert!(error.message().contains("belongs to an open transaction")),
        Ok(_) => panic!("an invalid retirement replayed"),
    }
}

#[test]
fn current_passing_evidence_accepts_transaction() {
    let files = fixture_files();
    let mut w = fresh_workspace();
    let observation = observe(&mut w, &files, "src/lib.rs");
    let claim = claim(&mut w, &files, "foo returns one", vec![observation.id]).ok().unwrap();
    let transaction = w
        .begin_transaction("fixture transaction intent".to_owned(), vec![claim.id], REVISION.to_owned(), "wt".to_owned())
        .ok()
        .unwrap();
    evidence(&mut w, &files, transaction.id, &claim);
    let accepted = w.accept_transaction(transaction.id, &Vec::new(), None).ok().unwrap();
    assert_eq!(accepted.state, TransactionState::Accepted);
}

#[test]
fn s5_restart_recovers_objective_working_set_and_open_work() {
    let files = fixture_files();
    let mut w = fresh_workspace();
    w.bind_objective("prove restart recovery".to_owned(), Some("clearhead:kernel".to_owned()))
        .ok()
        .unwrap();
    let observation = observe(&mut w, &files, "src/lib.rs");
    w.focus_observation(observation.id, "acceptance target".to_owned()).ok().unwrap();
    let claim = claim(&mut w, &files, "foo returns one", vec![observation.id]).ok().unwrap();
    let transaction = w
        .begin_transaction("fixture transaction intent".to_owned(), vec![claim.id], REVISION.to_owned(), "wt".to_owned())
        .ok()
        .unwrap();
    evidence(&mut w, &files, transaction.id, &claim);

    // A fresh process: nothing but the log.
    let mut restarted = replay(w.log());
    let resumed = restarted.resume_status(&Vec::new()).ok().unwrap();
    assert_eq!(
        resumed.objective.as_ref().map(|objective| objective.intent.as_str()),
        Some("prove restart recovery")
    );
    assert_eq!(resumed.working_set[0].observation_id, observation.id);
    assert_eq!(resumed.observations.len(), 1);
    assert_eq!(resumed.claims.len(), 1);
    assert_eq!(resumed.evidence.len(), 1);
    assert_eq!(resumed.transactions[0].state, TransactionState::Open);
    assert_eq!(resumed.evidence[0].report.freshness_within_scope, FreshnessWithinScope::Current);

    let resumed_again = replay(restarted.log()).resume_status(&Vec::new()).ok().unwrap();
    let shape = |s: &agent_workspace::projection::WorkspaceStatus| {
        (
            s.objective.as_ref().map(|o| (o.intent.clone(), o.external_reference.clone())),
            s.working_set.iter().map(|e| (e.observation_id, e.reason.clone(), e.focus_sequence)).collect::<Vec<_>>(),
            s.observations.iter().map(|o| (o.id, o.report.freshness_within_scope)).collect::<Vec<_>>(),
            s.claims.iter().map(|c| (c.id, c.statement.clone(), c.report.freshness_within_scope)).collect::<Vec<_>>(),
            s.evidence.iter().map(|e| (e.id, e.report.freshness_within_scope)).collect::<Vec<_>>(),
            s.transactions.iter().map(|t| (t.id, t.state)).collect::<Vec<_>>(),
            s.checkpoints.len(),
        )
    };
    assert_eq!(shape(&resumed), shape(&resumed_again));
    assert!(matches!(resumed.claims[0].lifecycle, ClaimLifecycle::Active));
}

/// The verdict an observation already carries: reconciling to it records
/// nothing.
fn standing_verdict(o: &Observation) -> Verdict {
    Verdict {
        freshness: o.report.freshness_within_scope,
        reason: o.report.reason.clone(),
        reconciliation_fingerprint: o.report.operational_coverage.reconciliation_fingerprint.clone(),
    }
}

/// `record-finding --provider P --severity S [--rule R] --message M --path PATH`
/// with the native payload read from stdin (none when empty).
fn record_finding(
    w: &mut Workspace,
    files: &[(&str, &str)],
    provider: &str,
    severity: FindingSeverity,
    rule: Option<&str>,
    message: &str,
    path: &str,
    payload: &str,
) -> Finding {
    let container = file(files, path);
    let normalizer = NormalizerConfig::builtin_default().for_path(path);
    let native_payload = if payload.is_empty() { None } else { Some(payload.to_owned()) };
    let reference = native_payload.as_ref().map(|p| format!("payloads/{}", hex_digest(p.as_bytes())));
    let options = FindingCaptureOptions { selector: ObservationSelector::WholeFile, normalizer, native_payload };
    w.record_finding(
        provider.to_owned(),
        severity,
        rule.map(str::to_owned),
        message.to_owned(),
        path,
        options,
        container,
        formatted(container, normalizer).as_ref(),
        REVISION.to_owned(),
        reference,
    )
    .ok()
    .unwrap()
}

#[test]
fn default_status_is_the_brief_orientation_surface() {
    let files = fixture_files();
    let mut w = fresh_workspace();
    w.bind_objective("make status cheap to consult".to_owned(), None).ok().unwrap();
    let observation = observe(&mut w, &files, "src/lib.rs");
    // A short claim (stays whole in brief)...
    claim(&mut w, &files, "lib.rs defines the kernel", vec![observation.id]).ok().unwrap();
    // ...and a long thesis-first claim (truncated to a headline in brief).
    let long_statement = "Truncation headline check: this deliberately long claim leads \
        with its thesis and then continues well past the brief headline budget with a \
        great deal of additional implementation detail that a scan does not need up front, \
        only on --full.";
    claim(&mut w, &files, long_statement, vec![observation.id]).ok().unwrap();

    let brief = w.resume_brief_status(&Vec::new()).ok().unwrap();
    assert_eq!(brief.objective.as_ref().map(|o| o.intent.as_str()), Some("make status cheap to consult"));
    assert_eq!(brief.claims.len(), 2);
    // Short claim: headline is the whole statement, no ellipsis.
    assert_eq!(brief.claims[0].headline, "lib.rs defines the kernel");
    assert_eq!(
        brief.claims[0].freshness,
        FreshnessWithinScope::Current,
        "a just-recorded claim over an unchanged input reads current"
    );
    // Long claim: headline is truncated to a scannable thesis with a trailing ….
    let headline = brief.claims[1].headline.as_str();
    assert!(headline.ends_with('…'), "truncated headline marks the cut");
    assert!(headline.chars().count() <= 161, "headline stays within the budget (+ ellipsis): {headline:?}");
    assert!(headline.starts_with("Truncation headline check:"), "thesis-first claims read cleanly in the headline: {headline:?}");
    assert!(
        headline.chars().count() < long_statement.chars().count(),
        "the headline is shorter than the full statement it stands in for"
    );
    assert_eq!(brief.counts.active_claims, 2);
    assert_eq!(brief.counts.observations, 1);
    assert_eq!(brief.counts.freshness.current, 2);
    assert_eq!(brief.counts.freshness.stale, 0);

    // The full audit surface carries the untruncated statement.
    let full = w.resume_status(&Vec::new()).ok().unwrap();
    assert_eq!(full.observations.len(), 1);
    assert_eq!(full.claims.len(), 2);
    assert_eq!(full.claims[1].statement, long_statement);
}

#[test]
fn brief_status_caps_claims_and_compact_transport_fits_hook_preview() {
    let files = fixture_files();
    let mut w = fresh_workspace();
    let observation = observe(&mut w, &files, "src/lib.rs");
    for index in 0..12 {
        let statement = format!(
            "claim {index}: a deliberately long thesis that should be bounded before model entry while the full belief remains available in audit status"
        );
        claim(&mut w, &files, &statement, vec![observation.id]).ok().unwrap();
    }
    let brief = w.resume_brief_status(&Vec::new()).ok().unwrap();
    assert_eq!(brief.claims.len(), 8);
    assert_eq!(brief.claims_omitted, 4);
    assert_eq!(brief.counts.active_claims, 12);
}

#[test]
fn working_set_view_hard_bounds_each_section_with_explicit_omissions() {
    // 13 focused locations, 13 uncited candidates, and 17 total focus visits —
    // each one over its cap by exactly one — so every omission counter is proven.
    let bodies: Vec<(String, String)> = (0..26)
        .map(|i| (format!("src/f{i:02}.rs"), format!("pub fn f{i}() {{}}\n")))
        .collect();
    let files: Vec<(&str, &str)> = bodies.iter().map(|(p, b)| (p.as_str(), b.as_str())).collect();
    let mut w = fresh_workspace();
    let ids: Vec<u64> = (0..26).map(|i| observe(&mut w, &files, &format!("src/f{i:02}.rs")).id).collect();
    for &id in &ids[..13] {
        w.focus_observation(id, "bound fixture".to_owned()).ok().unwrap();
    }
    for &id in &ids[..4] {
        w.focus_observation(id, "bound fixture".to_owned()).ok().unwrap();
    }
    let targets = w.working_set_reconcile_targets();
    let rs: Vec<Reconciliation> = w
        .status()
        .observations
        .iter()
        .filter(|o| targets.contains(&o.id))
        .map(|o| Reconciliation { kind: EntityKind::Observation, id: o.id, verdict: standing_verdict(o) })
        .collect();
    let view = w.resume_working_set_view(&rs).ok().unwrap();
    assert_eq!(view.locations.len(), 12);
    assert_eq!(view.locations_omitted, 1);
    assert_eq!(view.uncited.len(), 12);
    assert_eq!(view.uncited_omitted, 1);
    assert_eq!(view.trail.len(), 16);
    assert_eq!(view.trail_omitted, 1);
}

#[test]
fn finding_retains_provider_provenance_and_reveals_native_payload() {
    let files = fixture_files();
    let mut w = fresh_workspace();
    let payload = r#"{"rule":"needless_return","level":"warning","spans":[{"line":1}]}"#;
    let finding = record_finding(
        &mut w,
        &files,
        "clippy",
        FindingSeverity::Warning,
        Some("needless_return"),
        "unneeded return statement",
        "src/lib.rs",
        payload,
    );
    assert_eq!(finding.provider, "clippy");
    assert_eq!(finding.severity, FindingSeverity::Warning);
    assert_eq!(finding.rule.as_deref(), Some("needless_return"));
    assert_eq!(finding.message, "unneeded return statement");
    assert_eq!(finding.path, "src/lib.rs");
    assert_eq!(finding.report.freshness_within_scope, FreshnessWithinScope::Current);
    assert!(matches!(finding.disposition, FindingDisposition::Open));
    assert!(finding.native_payload_fingerprint.is_some());
    assert!(!finding.observed_revision.is_empty());

    // The retained payload, as the store gives it back, reveals byte-exact.
    let retained = RetainedPayload { is_symlink: false, bytes: payload.as_bytes().to_vec() };
    let revealed = w.reveal_finding(finding.id, &retained).ok().unwrap();
    assert_eq!(revealed.provider, "clippy");
    assert_eq!(revealed.content, payload);
}

#[test]
fn findings_queue_ranks_by_severity_and_disposition_leaves_the_queue() {
    let files = fixture_files();
    let mut w = fresh_workspace();
    // Record out of severity order to prove the queue ranks, not insertion-order.
    record_finding(&mut w, &files, "rustc", FindingSeverity::Info, None, "consider documenting foo", "src/lib.rs", "");
    record_finding(&mut w, &files, "rustc", FindingSeverity::Error, None, "mismatched types", "src/lib.rs", "");
    record_finding(&mut w, &files, "rustc", FindingSeverity::Warning, None, "unused import", "src/lib.rs", "");

    let queue = w.resume_findings_view(&Vec::new()).ok().unwrap();
    assert_eq!(queue.open.len(), 3);
    assert_eq!(queue.open[0].severity, FindingSeverity::Error);
    assert_eq!(queue.open[1].severity, FindingSeverity::Warning);
    assert_eq!(queue.open[2].severity, FindingSeverity::Info);
    assert_eq!(queue.open_omitted, 0);
    assert_eq!(queue.disposed, 0);

    let disposed = w
        .dispose_finding(
            1,
            FindingDisposition::FalsePositive {
                actor: "darrion".to_owned(),
                rationale: "the borrow checker is satisfied after the sibling change".to_owned(),
            },
        )
        .ok()
        .unwrap();
    match disposed.disposition {
        FindingDisposition::FalsePositive { actor, rationale } => {
            assert_eq!(actor, "darrion");
            assert!(rationale.contains("borrow checker"));
        }
        _ => panic!("expected false-positive disposition"),
    }

    let after = w.resume_findings_view(&Vec::new()).ok().unwrap();
    assert_eq!(after.open.len(), 2);
    assert_eq!(after.disposed, 1);
    // The error left the queue; warning now leads.
    assert_eq!(after.open[0].severity, FindingSeverity::Warning);

    let refused = w
        .dispose_finding(0, FindingDisposition::Resolved { actor: "   ".to_owned(), rationale: String::new() })
        .err()
        .unwrap();
    assert!(refused.message().contains("non-empty actor and rationale"));

    // Disposition survives restart: a cold projection still shows it.
    let mut restarted = replay(w.log());
    let resumed = restarted.resume_status(&Vec::new()).ok().unwrap();
    let error_finding = resumed.findings.iter().find(|finding| finding.id == 1).unwrap();
    assert!(matches!(error_finding.disposition, FindingDisposition::FalsePositive { .. }));
}

#[test]
fn transaction_carries_intent_findings_risks_and_preview_matches_acceptance() {
    let files = fixture_files();
    let mut w = fresh_workspace();
    let observation = observe(&mut w, &files, "src/lib.rs");
    let claim = claim(&mut w, &files, "foo returns one", vec![observation.id]).ok().unwrap();
    let finding = record_finding(&mut w, &files, "clippy", FindingSeverity::Warning, None, "needless return", "src/lib.rs", "");

    // Intent is required.
    let no_intent = w
        .begin_transaction(String::new(), vec![claim.id], REVISION.to_owned(), "wt".to_owned())
        .err()
        .unwrap();
    assert!(no_intent.message().contains("intent is required"));

    let transaction = w
        .begin_transaction(
            "resolve the needless-return lint in foo".to_owned(),
            vec![claim.id],
            REVISION.to_owned(),
            "wt".to_owned(),
        )
        .ok()
        .unwrap();
    assert_eq!(transaction.intent.as_deref(), Some("resolve the needless-return lint in foo"));
    w.associate_finding(transaction.id, finding.id).ok().unwrap();
    w.record_residual_risk(transaction.id, "no integration test covers foo's callers".to_owned())
        .ok()
        .unwrap();

    // Before evidence: not ready, matching what accept would do.
    let before = w.resume_transaction_preview(transaction.id, &Vec::new(), None).ok().unwrap().unwrap();
    assert_eq!(before.intent.as_deref(), Some("resolve the needless-return lint in foo"));
    assert_eq!(before.associated_findings[0].id, finding.id);
    assert_eq!(before.associated_findings[0].freshness, FreshnessWithinScope::Current);
    assert_eq!(before.residual_risks[0], "no integration test covers foo's callers");
    assert!(!before.ready_to_accept);
    let premature = w.accept_transaction(transaction.id, &Vec::new(), None).ok().unwrap();
    assert_ne!(premature.state, TransactionState::Accepted);

    // With passing evidence the preview flips to ready and accept succeeds.
    let reads: Vec<LocationRead> = claim.inputs.iter().map(|i| read_input(&files, i)).collect();
    w.record_evidence(
        transaction.id,
        claim.id,
        "cargo-clippy".to_owned(),
        "cargo clippy".to_owned(),
        "imported".to_owned(),
        EvidenceOutcome::Passed,
        REVISION,
        &reads,
        None,
    )
    .ok()
    .unwrap();
    let after = w.resume_transaction_preview(transaction.id, &Vec::new(), None).ok().unwrap().unwrap();
    assert!(after.ready_to_accept);
    assert_eq!(after.evidence[0].outcome, EvidenceOutcome::Passed);
    let accepted = w.accept_transaction(transaction.id, &Vec::new(), None).ok().unwrap();
    assert_eq!(accepted.state, TransactionState::Accepted);

    // Associations survive restart.
    let resumed = replay(w.log()).resume_status(&Vec::new()).ok().unwrap();
    let resumed_tx = resumed.transactions.iter().find(|t| t.id == transaction.id).unwrap();
    assert_eq!(resumed_tx.finding_ids, vec![finding.id]);
    assert_eq!(resumed_tx.residual_risks.len(), 1);
    assert_eq!(resumed_tx.intent.as_deref(), Some("resolve the needless-return lint in foo"));
}

#[test]
fn record_belief_reuses_a_fresh_ambient_observation_instead_of_duplicating_it() {
    let files = fixture_files();
    let mut w = fresh_workspace();
    // The ambient capture an adapter's read hook would have recorded.
    let ambient = observe_with(&mut w, &files, "src/lib.rs", "adapter.capture", ObservationSelector::WholeFile, None, None)
        .ok()
        .unwrap();

    // Recording the belief: the cited path's freshest observation is
    // reconciled and, being current, reused and focused.
    let statement = "foo returns one";
    let first_new = w.next_observation_id();
    let candidate = w.freshest_observation("src/lib.rs").unwrap();
    let reconciled = w.reconcile_observation(candidate.id, &standing_verdict(&candidate)).ok().unwrap();
    assert!(reuses(&reconciled));
    w.focus_observation(reconciled.id, statement.to_owned()).ok().unwrap();
    let supports = vec![BeliefSupport { path: "src/lib.rs".to_owned(), observation_id: reconciled.id, reused: true }];
    let inputs = w.planned_claim_inputs(&vec![reconciled.id], &Vec::new(), &Vec::new(), ClaimScopeStrategy::Declared);
    let reads: Vec<LocationRead> = inputs.iter().map(|i| read_input(&files, i)).collect();
    let belief = w
        .record_belief(
            statement.to_owned(),
            &vec!["src/lib.rs".to_owned()],
            supports,
            first_new,
            ClaimScopeStrategy::Declared,
            Vec::new(),
            REVISION,
            &reads,
        )
        .ok()
        .unwrap();

    let support: &BeliefSupport = &belief.supports[0];
    assert_eq!(support.path, "src/lib.rs");
    assert_eq!(support.observation_id, ambient.observation.id);
    assert!(support.reused, "a fresh observation must be reused, not duplicated");
    assert_eq!(belief.claim.supporting_observation_ids, vec![ambient.observation.id]);
    assert_eq!(belief.claim.report.freshness_within_scope, FreshnessWithinScope::Current);
    // Exactly one observation exists: the ambient one, now joined to a claim.
    let status = w.resume_status(&Vec::new()).ok().unwrap();
    assert_eq!(status.observations.len(), 1);
    assert_eq!(status.claims.len(), 1);
    let entry = status
        .working_set
        .iter()
        .find(|entry| entry.observation_id == ambient.observation.id)
        .expect("the belief's support is focused");
    assert_eq!(entry.reason, "foo returns one");
}

#[test]
fn in_repo_workspace_override_is_rejected_not_silently_forked() {
    let refused = Workspace::open(
        "/fixture/repository".to_owned(),
        "/fixture/repository/.agent-workspace".to_owned(),
        Vec::new(),
    );
    match refused {
        Err(error) => assert!(error.message().contains("outside the repository"), "{}", error.message()),
        Ok(_) => panic!("an in-repo workspace was opened"),
    }
    // A sibling directory whose name only starts like the repository's is outside it.
    assert!(Workspace::open(
        "/fixture/repository".to_owned(),
        "/fixture/repository-state".to_owned(),
        Vec::new()
    )
    .is_ok());
}

#[test]
fn delta_without_any_checkpoint_fails_clearly() {
    let mut w = fresh_workspace();
    let before = w.log().len();
    match w.delta_since(None, &Vec::new()) {
        Err(error) => assert!(error.message().contains("not found")),
        Ok(_) => panic!("a delta without a checkpoint was answered"),
    }
    match w.delta_brief_since(Some("missing"), &Vec::new()) {
        Err(error) => assert!(error.message().contains("not found")),
        Ok(_) => panic!("a bounded delta without a checkpoint was answered"),
    }
    assert_eq!(w.log().len(), before);
}

#[test]
fn record_belief_requires_a_citation() {
    let mut w = fresh_workspace();
    let error = w
        .record_belief(
            "uncited".to_owned(),
            &Vec::new(),
            Vec::new(),
            0,
            ClaimScopeStrategy::Declared,
            Vec::new(),
            REVISION,
            &Vec::new(),
        )
        .err()
        .unwrap();
    assert!(error.message().contains("at least one cited path"), "unexpected error: {}", error.message());
    assert_eq!(w.log().len(), 0);
}

#[test]
fn a_record_out_of_sequence_is_refused_and_changes_nothing() {
    let mut p = agent_workspace::state::Projection::new();
    let record = EventRecord {
        schema_version: 2,
        sequence: 1,
        event: Event::ObjectiveBound { intent: "x".to_owned(), external_reference: None },
    };
    match p.apply(record) {
        Err(error) => assert_eq!(error.message(), "corrupt event log: expected sequence 0, found 1"),
        Ok(()) => panic!("an out-of-sequence record was applied"),
    }
    assert!(p.objective.is_none());
    assert_eq!(p.next_sequence, 0);
    let old = EventRecord {
        schema_version: 7,
        sequence: 0,
        event: Event::ObjectiveBound { intent: "x".to_owned(), external_reference: None },
    };
    assert!(p.apply(old).err().unwrap().message().contains("unsupported schema version 7"));
}

#[test]
fn write_back_lag_counts_observations_since_the_last_claim() {
    let files = fixture_files();
    let mut w = fresh_workspace();
    let lag = |w: &mut Workspace| w.resume_brief_status(&Vec::new()).ok().unwrap().observations_since_last_claim;
    // A fresh workspace has sensed nothing and owes nothing.
    assert_eq!(lag(&mut w), 0);
    // Two ambient captures with no belief drawn: the lag climbs, one per read.
    let lib = observe(&mut w, &files, "src/lib.rs");
    assert_eq!(lag(&mut w), 1);
    observe(&mut w, &files, "src/helper.rs");
    assert_eq!(lag(&mut w), 2);
    // Recording a belief is writing back: the lag resets to zero.
    let first_new = w.next_observation_id();
    w.focus_observation(lib.id, "foo returns one".to_owned()).ok().unwrap();
    let supports = vec![BeliefSupport { path: "src/lib.rs".to_owned(), observation_id: lib.id, reused: true }];
    let inputs = w.planned_claim_inputs(&vec![lib.id], &Vec::new(), &Vec::new(), ClaimScopeStrategy::Declared);
    let reads: Vec<LocationRead> = inputs.iter().map(|i| read_input(&files, i)).collect();
    w.record_belief(
        "foo returns one".to_owned(),
        &vec!["src/lib.rs".to_owned()],
        supports,
        first_new,
        ClaimScopeStrategy::Declared,
        Vec::new(),
        REVISION,
        &reads,
    )
    .ok()
    .unwrap();
    assert_eq!(lag(&mut w), 0);
    // A fresh observation after the belief starts the lag climbing again.
    let edited = [("src/lib.rs", "pub fn foo() -> i32 { 42 }\n"), ("src/helper.rs", "pub fn helper() -> i32 { 1 }\n")];
    observe(&mut w, &edited, "src/lib.rs");
    assert_eq!(lag(&mut w), 1);
}

#[test]
fn a_repeated_status_records_nothing() {
    let files = fixture_files();
    let mut w = fresh_workspace();
    let o = observe(&mut w, &files, "src/lib.rs");
    let edited = Verdict {
        freshness: FreshnessWithinScope::Stale,
        reason: "supporting input changed".to_owned(),
        reconciliation_fingerprint: "f".repeat(64),
    };
    let rs = vec![Reconciliation { kind: EntityKind::Observation, id: o.id, verdict: edited }];
    let before = w.log().len();
    let first = w.resume_status(&rs).ok().unwrap();
    assert_eq!(w.log().len(), before + 1);
    assert_eq!(first.observations[0].report.freshness_within_scope, FreshnessWithinScope::Stale);
    let second = w.resume_status(&rs).ok().unwrap();
    assert_eq!(w.log().len(), before + 1);
    assert_eq!(second.observations[0].report.freshness_within_scope, FreshnessWithinScope::Stale);
    assert_eq!(second.observations[0].report.reason, first.observations[0].report.reason);
}

/// `belief --statement S --rests-on src/lib.rs` where the ambient
/// observation is reconciled to `verdict`; returns the belief's supports as
/// the command assembles them and the observation numbering it began at.
fn support_lib(w: &mut Workspace, files: &[(&str, &str)], statement: &str, verdict: Option<Verdict>) -> (Vec<BeliefSupport>, u64) {
    let first_new = w.next_observation_id();
    let candidate = w.freshest_observation("src/lib.rs").unwrap();
    let verdict = verdict.unwrap_or_else(|| standing_verdict(&candidate));
    let reconciled = w.reconcile_observation(candidate.id, &verdict).ok().unwrap();
    let (id, reused) = if reuses(&reconciled) {
        (reconciled.id, true)
    } else {
        let capture = observe_with(w, files, "src/lib.rs", "agent.belief", ObservationSelector::WholeFile, None, None)
            .ok()
            .unwrap();
        (capture.observation.id, false)
    };
    w.focus_observation(id, statement.to_owned()).ok().unwrap();
    (vec![BeliefSupport { path: "src/lib.rs".to_owned(), observation_id: id, reused }], first_new)
}

fn record_lib_belief(
    w: &mut Workspace,
    files: &[(&str, &str)],
    statement: &str,
    rests_on: Vec<String>,
    supports: Vec<BeliefSupport>,
    first_new: u64,
) -> Result<agent_workspace::model::Belief, agent_workspace::error::WorkspaceError> {
    let ids: Vec<u64> = supports.iter().map(|s| s.observation_id).collect();
    let inputs = w.planned_claim_inputs(&ids, &Vec::new(), &Vec::new(), ClaimScopeStrategy::Declared);
    let reads: Vec<LocationRead> = inputs.iter().map(|i| read_input(files, i)).collect();
    w.record_belief(statement.to_owned(), &rests_on, supports, first_new, ClaimScopeStrategy::Declared, Vec::new(), REVISION, &reads)
}

#[test]
fn a_belief_captures_anew_when_the_freshest_observation_is_stale() {
    let files = fixture_files();
    let mut w = fresh_workspace();
    let ambient = observe(&mut w, &files, "src/lib.rs");
    let stale = Verdict {
        freshness: FreshnessWithinScope::Stale,
        reason: "observed unit changed".to_owned(),
        reconciliation_fingerprint: "changed".to_owned(),
    };
    let (supports, first_new) = support_lib(&mut w, &files, "foo returns one", Some(stale));
    assert!(!supports[0].reused);
    assert_ne!(supports[0].observation_id, ambient.id);
    // Citing the path twice is one citation.
    let cited = vec!["src/lib.rs".to_owned(), "src/lib.rs".to_owned()];
    let belief = record_lib_belief(&mut w, &files, "foo returns one", cited, supports, first_new).ok().unwrap();
    assert_eq!(belief.supports.len(), 1);
    assert!(!belief.supports[0].reused);
    assert_eq!(belief.claim.supporting_observation_ids, vec![belief.supports[0].observation_id]);
}

#[test]
fn belief_supports_that_do_not_match_the_state_are_refused() {
    let files = fixture_files();
    let mut w = fresh_workspace();
    let ambient = observe(&mut w, &files, "src/lib.rs");
    let cited = vec!["src/lib.rs".to_owned()];
    // Not focused: refused, and nothing is recorded.
    let unfocused = vec![BeliefSupport { path: "src/lib.rs".to_owned(), observation_id: ambient.id, reused: true }];
    let before = w.log().len();
    let error = record_lib_belief(&mut w, &files, "foo returns one", cited.clone(), unfocused, ambient.id + 1)
        .err()
        .unwrap();
    assert_eq!(error.message(), "invalid claim: the supports do not match the cited paths");
    assert_eq!(w.log().len(), before);
    // A fresh observation said to be captured for the belief is refused.
    let (supports, first_new) = support_lib(&mut w, &files, "foo returns one", None);
    let mislabelled: Vec<BeliefSupport> = supports
        .iter()
        .map(|s| BeliefSupport { path: s.path.clone(), observation_id: s.observation_id, reused: false })
        .collect();
    assert!(record_lib_belief(&mut w, &files, "foo returns one", cited.clone(), mislabelled, first_new).is_err());
    // A second cited path without a support is refused.
    let two = vec!["src/lib.rs".to_owned(), "src/helper.rs".to_owned()];
    let (supports, first_new) = support_lib(&mut w, &files, "foo returns one", None);
    assert!(record_lib_belief(&mut w, &files, "foo returns one", two, supports, first_new).is_err());
    // An invalid cited path is refused as such.
    let (supports, first_new) = support_lib(&mut w, &files, "foo returns one", None);
    let error = record_lib_belief(&mut w, &files, "foo returns one", vec!["/etc/passwd".to_owned()], supports, first_new)
        .err()
        .unwrap();
    assert!(error.message().contains("/etc/passwd"), "{}", error.message());
}

#[test]
fn single_pass_status_reads_the_event_log_a_constant_number_of_times() {
    let files: Vec<(String, String)> = (0..8).map(|index| (format!("src/f{index}.txt"), format!("content {index}\n"))).collect();
    let file_refs: Vec<(&str, &str)> = files.iter().map(|(path, contents)| (path.as_str(), contents.as_str())).collect();
    let mut w = fresh_workspace();
    // 8 observations, each with a claim: 16 reconcilable entities.
    for (path, _) in &files {
        let observation = observe(&mut w, &file_refs, path);
        claim(&mut w, &file_refs, &format!("claim about {path}"), vec![observation.id]).ok().unwrap();
    }
    // Settle, so the measured status is a pure no-op.
    w.resume_status(&Vec::new()).ok().unwrap();

    // A handle opened on the settled log: the status reads the log a small
    // constant number of times, never once per entity.
    let mut handle = replay(w.log());
    assert_eq!(handle.event_log_reads(), 0, "counter starts at zero");
    handle.resume_status(&Vec::new()).ok().unwrap();
    let reads = handle.event_log_reads();
    assert!(reads <= 2, "a settled status must read the log a small constant number of times, got {reads} over 16 entities");
}

#[test]
fn state_root_is_shared_across_worktrees_and_separate_across_clones() {
    // Identity comes from the canonical git common directory: a linked
    // worktree of one repository shares it, an independent clone does not.
    let state_root = "/fixture/state";
    let resolve = |common_dir: &str| {
        resolve_state_root(None, Some(state_root), None, None, None, &project_identity(common_dir)).ok().unwrap()
    };
    let main_root = resolve("/fixture/primary/repository/.git");
    let worktree_root = resolve("/fixture/primary/repository/.git");
    let clone_root = resolve("/fixture/clone/repository/.git");
    assert_eq!(main_root, worktree_root, "linked worktrees of one repository share state");
    assert_ne!(main_root, clone_root, "independent clones must not share state");
    assert!(main_root.starts_with(state_root), "resolved state lives under the external state root");
}

#[test]
fn a_bounded_delta_is_the_brief_of_the_full_delta() {
    let files = fixture_files();
    let mut w = fresh_workspace();
    let lib = observe(&mut w, &files, "src/lib.rs");
    w.bind_objective("ship the delta view".to_owned(), None).ok().unwrap();
    w.checkpoint("first".to_owned(), None, REVISION.to_owned(), &Vec::new()).ok().unwrap();
    claim(&mut w, &files, "foo returns one", vec![lib.id]).ok().unwrap();
    observe(&mut w, &files, "src/helper.rs");
    w.bind_objective("ship the read hook".to_owned(), None).ok().unwrap();

    let full = w.delta_since(Some("first"), &Vec::new()).ok().unwrap().brief();
    let bounded = w.delta_brief_since(Some("first"), &Vec::new()).ok().unwrap();
    assert_eq!(bounded.checkpoint.label, full.checkpoint.label);
    assert_eq!(bounded.checkpoint.sequence, full.checkpoint.sequence);
    let before = |c: &Option<agent_workspace::projection::BriefObjectiveChange>| c.as_ref().map(|c| (c.before.clone(), c.after.clone()));
    assert_eq!(before(&bounded.objective_change), before(&full.objective_change));
    let sets = |d: &agent_workspace::projection::BriefDeltaStatus| {
        [
            &d.claims_recorded,
            &d.claims_superseded,
            &d.claims_staled,
            &d.observations_recorded,
            &d.transactions_opened,
            &d.transactions_closed,
        ]
        .iter()
        .map(|s| (s.total, s.recent_ids.clone(), s.omitted))
        .collect::<Vec<_>>()
    };
    assert_eq!(sets(&bounded), sets(&full));
    assert_eq!(bounded.claims_recorded.total, 1);
    assert_eq!(bounded.observations_recorded.total, 1);
}

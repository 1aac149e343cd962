use agent_workspace::digest::hex_digest;
use agent_workspace::error::WorkspaceError;
use agent_workspace::event::EventRecord;
use agent_workspace::model::{
    FreshnessWithinScope, Normalizer, Observation, ObservationCaptureOptions, ObservationSelector,
    TransactionState,
};
use agent_workspace::mutation::RevertRead;
use agent_workspace::payloads::RetainedPayload;
use agent_workspace::reconcile::LocationRead;
use agent_workspace::workspace::{Verdict, Workspace};

fn open_empty() -> Workspace {
    Workspace::open("/repo".to_owned(), "/ws".to_owned(), Vec::new())
        .ok()
        .unwrap()
}

fn copy_log(w: &Workspace) -> Vec<EventRecord> {
    w.log().iter().map(|r| r.duplicate()).collect()
}

fn options(retain: bool) -> ObservationCaptureOptions {
    ObservationCaptureOptions {
        selector: ObservationSelector::WholeFile,
        normalizer: Normalizer::Raw,
        retain_native_payload: retain,
        model_visible_bytes: None,
        expected_raw_fingerprint: None,
    }
}

fn capture(w: &mut Workspace, path: &str, bytes: &[u8]) -> Observation {
    w.capture_file_observation(path, "test".to_owned(), options(false), bytes, None, "rev1".to_owned(), None)
        .ok()
        .unwrap()
        .observation
}

fn current_read(bytes: &[u8]) -> LocationRead {
    LocationRead::Read {
        unit: hex_digest(bytes),
        container: hex_digest(bytes),
    }
}

#[test]
fn reopening_the_log_restores_the_state() {
    let mut w = open_empty();
    w.bind_objective("ship it".to_owned(), None).ok().unwrap();
    let o = capture(&mut w, "src/a.rs", b"fn a() {}\n");
    let claim = w
        .record_claim(
            "a is defined".to_owned(),
            vec![o.id],
            Vec::new(),
            "rev1",
            &vec![current_read(b"fn a() {}\n")],
        )
        .ok()
        .unwrap();
    assert_eq!(claim.report.freshness_within_scope, FreshnessWithinScope::Current);
    let reopened = Workspace::open("/repo".to_owned(), "/ws".to_owned(), copy_log(&w))
        .ok()
        .unwrap();
    let (a, b) = (w.status(), reopened.status());
    assert_eq!(a.claims.len(), 1);
    assert_eq!(b.claims.len(), 1);
    assert_eq!(b.claims[0].id, claim.id);
    assert_eq!(b.claims[0].statement, "a is defined");
    assert_eq!(b.observations.len(), a.observations.len());
    assert_eq!(b.objective.map(|o| o.intent), Some("ship it".to_owned()));
}

#[test]
fn refused_writes_append_nothing() {
    let mut w = open_empty();
    let before = w.log().len();
    assert!(matches!(
        w.bind_objective("   ".to_owned(), None),
        Err(WorkspaceError::InvalidObjective(m)) if m == "intent must not be empty"
    ));
    assert!(matches!(
        w.capture_file_observation("/abs", "t".to_owned(), options(false), b"x", None, "r".to_owned(), None),
        Err(WorkspaceError::InvalidPath(p)) if p == "/abs"
    ));
    assert!(matches!(
        w.focus_observation(42, "why".to_owned()),
        Err(WorkspaceError::ObservationNotFound(42))
    ));
    assert_eq!(w.log().len(), before);
}

#[test]
fn reconciling_twice_to_the_same_verdict_records_once() {
    let mut w = open_empty();
    let o = capture(&mut w, "a.txt", b"one");
    let verdict = Verdict {
        freshness: FreshnessWithinScope::Stale,
        reason: "supporting input changed".to_owned(),
        reconciliation_fingerprint: "f".repeat(64),
    };
    let before = w.log().len();
    let first = w.reconcile_observation(o.id, &verdict).ok().unwrap();
    assert_eq!(first.report.freshness_within_scope, FreshnessWithinScope::Stale);
    assert_eq!(w.log().len(), before + 1);
    let second = w.reconcile_observation(o.id, &verdict).ok().unwrap();
    assert_eq!(second.report.reason, "supporting input changed");
    assert_eq!(w.log().len(), before + 1);
}

#[test]
fn a_transaction_mutates_on_a_clean_base_and_reverts() {
    let mut w = open_empty();
    let o = capture(&mut w, "a.rs", b"old");
    let claim = w
        .record_claim("a".to_owned(), vec![o.id], Vec::new(), "rev1", &vec![current_read(b"old")])
        .ok()
        .unwrap();
    let t = w
        .begin_transaction("edit a".to_owned(), vec![claim.id], "rev1".to_owned(), "w".repeat(64))
        .ok()
        .unwrap();
    assert!(matches!(
        w.prepare_mutation(t.id, "a.rs", b"old", b"dirty", b"new"),
        Err(WorkspaceError::InvalidTransaction(m))
            if m == "S6 clean-base mutation requires the path to match the base revision"
    ));
    assert!(matches!(
        w.prepare_mutation(t.id + 100, "a.rs", b"old", b"old", b"new"),
        Err(WorkspaceError::TransactionNotFound(_))
    ));
    let m = w.prepare_mutation(t.id, "a.rs", b"old", b"old", b"new").ok().unwrap();
    assert_eq!(m.before_fingerprint, hex_digest(b"old"));
    assert_eq!(m.after_fingerprint, hex_digest(b"new"));
    let logged = w.log().len();
    assert!(matches!(
        w.apply_file_mutation(t.id, "a.rs", b"old", b"dirty", b"new"),
        Err(WorkspaceError::InvalidTransaction(m)) if m.contains("clean-base")
    ));
    assert_eq!(w.log().len(), logged);
    let t = w.apply_file_mutation(t.id, "a.rs", b"old", b"old", b"new").ok().unwrap();
    assert_eq!(t.mutations[0].before_fingerprint, m.before_fingerprint);
    assert_eq!(t.mutations.len(), 1);
    assert!(matches!(
        w.mutation_base(t.id, "a.rs"),
        Err(WorkspaceError::InvalidTransaction(m)) if m == "transaction is not open or already owns this path"
    ));
    let targets = w.revert_targets(t.id).ok().unwrap();
    assert_eq!(targets.len(), 1);
    assert_eq!(targets[0].path, "a.rs");
    let conflict = vec![RevertRead { owned: b"other".to_vec(), original: b"old".to_vec() }];
    assert!(matches!(
        w.check_revert(t.id, &conflict),
        Err(WorkspaceError::InvalidTransaction(m)) if m == "revert conflict on a.rs"
    ));
    let corrupt = vec![RevertRead { owned: b"new".to_vec(), original: b"older".to_vec() }];
    assert!(matches!(
        w.check_revert(t.id, &corrupt),
        Err(WorkspaceError::CorruptLog(m)) if m == "base fingerprint mismatch for a.rs"
    ));
    let clean = vec![RevertRead { owned: b"new".to_vec(), original: b"old".to_vec() }];
    assert!(w.check_revert(t.id, &clean).is_ok());
    // A revert whose re-read bytes conflict is refused and records nothing.
    let before = w.log().len();
    assert!(matches!(
        w.revert_transaction(t.id, &conflict),
        Err(WorkspaceError::InvalidTransaction(m)) if m == "revert conflict on a.rs"
    ));
    assert_eq!(w.log().len(), before);
    let reverted = w.revert_transaction(t.id, &clean).ok().unwrap();
    assert_eq!(reverted.state, TransactionState::Reverted);
    assert!(matches!(
        w.revert_transaction(t.id, &clean),
        Err(WorkspaceError::InvalidTransaction(m)) if m == "transaction is not open or has no mutations"
    ));
}

#[test]
fn the_preview_reports_what_acceptance_decides() {
    let mut w = open_empty();
    let o = capture(&mut w, "a.rs", b"old");
    let claim = w
        .record_claim("a".to_owned(), vec![o.id], Vec::new(), "rev1", &vec![current_read(b"old")])
        .ok()
        .unwrap();
    let t = w
        .begin_transaction("edit a".to_owned(), vec![claim.id], "rev1".to_owned(), "w".repeat(64))
        .ok()
        .unwrap();
    let preview = w.resume_transaction_preview(t.id, &Vec::new(), None).ok().unwrap().unwrap();
    assert!(!preview.ready_to_accept);
    let decided = w.accept_transaction(t.id, &Vec::new(), None).ok().unwrap();
    assert_eq!(decided.state, TransactionState::Open);
    assert_eq!(decided.last_rejection, Some(preview.readiness_reason.clone()));

    let drifted = w
        .resume_transaction_preview(t.id, &Vec::new(), Some("owned bytes drifted".to_owned()))
        .ok()
        .unwrap()
        .unwrap();
    assert!(!drifted.ready_to_accept);
    assert_eq!(drifted.readiness_reason, "owned bytes drifted");
}

#[test]
fn a_retained_payload_is_revealed_only_as_recorded() {
    let mut w = open_empty();
    let bytes = b"retained source\n";
    let fingerprint = hex_digest(bytes);
    let reference = format!("payloads/{fingerprint}");
    let o = w
        .capture_file_observation(
            "a.txt",
            "test".to_owned(),
            options(true),
            bytes,
            None,
            "rev1".to_owned(),
            Some(reference.clone()),
        )
        .ok()
        .unwrap()
        .observation;
    assert_eq!(w.observation_payload_path(o.id).ok(), Some(reference));
    let good = RetainedPayload { is_symlink: false, bytes: bytes.to_vec() };
    let revealed = w.reveal_observation(o.id, &good).ok().unwrap();
    assert_eq!(revealed.content, "retained source\n");
    assert_eq!(revealed.ingested_bytes, bytes.len());
    let tampered = RetainedPayload { is_symlink: false, bytes: b"tampered".to_vec() };
    let expected = format!("native payload fingerprint mismatch for observation {}", o.id);
    assert!(matches!(
        w.reveal_observation(o.id, &tampered),
        Err(WorkspaceError::CorruptLog(m)) if m == expected
    ));
    let link = RetainedPayload { is_symlink: true, bytes: bytes.to_vec() };
    assert!(matches!(w.reveal_observation(o.id, &link), Err(WorkspaceError::CorruptLog(_))));
    let plain = capture(&mut w, "b.txt", b"b");
    assert!(matches!(
        w.reveal_observation(plain.id, &good),
        Err(WorkspaceError::InvalidObservation(m))
            if m == "native payload was not retained for this legacy observation"
    ));
    assert!(matches!(
        w.reveal_observation(999, &good),
        Err(WorkspaceError::ObservationNotFound(999))
    ));
}

use agent_workspace::belief::{check_belief, next_belief_path};
use agent_workspace::model::{Mutation, Transaction, TransactionState};
use agent_workspace::digest::{hex_digest, is_sha256_hex};
use agent_workspace::error::WorkspaceError;
use agent_workspace::locate::{project_identity, resolve_state_root};
use agent_workspace::model::{
    ClaimInput, ClaimInputSource, ClaimScopeStrategy, EntityRef, FreshnessWithinScope, Normalizer,
    ObservationSelector, SourceState,
};
use agent_workspace::reconcile::{claim_inputs_verdict, location_freshness_verdict, LocationRead};
use agent_workspace::normalizers::NormalizerConfig;
use agent_workspace::payloads::{payload_store_plan, StoredEntry};
use agent_workspace::params::{parse_byte_range, read_provider, scope_strategy};
use agent_workspace::paths::{is_sensitive_repository_path, validate_relative_path};
use agent_workspace::siblings::{conservative_sibling_dependencies, DirEntryInfo};
use agent_workspace::summary::{
    claims_line, enforce_budget, kind_rank, one_line, source_label, Marker, WakeInput,
};
use agent_workspace::worktree::{pinned_revision, worktree_fingerprint, worktree_paths, WorktreeEntry};
use sha2::{Digest, Sha256};

fn sha_hex(bytes: &[u8]) -> String {
    Sha256::digest(bytes)
        .iter()
        .map(|b| format!("{b:02x}"))
        .collect()
}

#[test]
fn hex_digest_is_the_sha256_of_the_bytes() {
    assert_eq!(
        hex_digest(b"abc"),
        "ba7816bf8f01cfea414140de5dae2223b00361a396177a9cb410ff61f20015ad"
    );
    assert!(is_sha256_hex(&hex_digest(b"")));
    assert!(!is_sha256_hex("abc"));
    assert!(!is_sha256_hex(&"g".repeat(64)));
}

#[test]
fn relative_paths_are_validated() {
    assert_eq!(validate_relative_path("src/lib.rs").ok(), Some("src/lib.rs".to_owned()));
    assert!(matches!(validate_relative_path("/etc/passwd"), Err(WorkspaceError::InvalidPath(p)) if p == "/etc/passwd"));
    assert!(matches!(validate_relative_path("../x"), Err(WorkspaceError::InvalidPath(_))));
    assert!(matches!(validate_relative_path(""), Err(WorkspaceError::InvalidPath(_))));
}

#[test]
fn sensitive_paths_are_recognized() {
    assert!(is_sensitive_repository_path(".env"));
    assert!(!is_sensitive_repository_path("src/lib.rs"));
}

#[test]
fn error_messages_name_what_failed() {
    assert_eq!(
        WorkspaceError::ClaimNotFound(7).message(),
        "claim 7 not found"
    );
    assert_eq!(
        WorkspaceError::InvalidPath("/x".to_owned()).message(),
        "path must be repository-relative: /x"
    );
    assert_eq!(
        WorkspaceError::CheckpointNotFound("c0".to_owned()).message(),
        "checkpoint \"c0\" not found"
    );
}

#[test]
fn byte_ranges_parse_or_name_the_bad_part() {
    assert!(matches!(
        parse_byte_range("3:7"),
        Ok(ObservationSelector::ByteRange { start: 3, end: 7 })
    ));
    assert!(matches!(
        parse_byte_range("+3:7"),
        Ok(ObservationSelector::ByteRange { start: 3, end: 7 })
    ));
    assert_eq!(parse_byte_range("37").err(), Some("invalid byte range: 37".to_owned()));
    assert_eq!(parse_byte_range("a:7").err(), Some("invalid byte range start: a".to_owned()));
    assert_eq!(parse_byte_range("3:").err(), Some("invalid byte range end: ".to_owned()));
}

#[test]
fn scope_names_select_a_strategy() {
    assert_eq!(
        scope_strategy(&Some("conservative-siblings".to_owned())),
        ClaimScopeStrategy::ConservativeSiblingFiles
    );
    assert_eq!(scope_strategy(&Some("declared".to_owned())), ClaimScopeStrategy::Declared);
    assert_eq!(scope_strategy(&None), ClaimScopeStrategy::Declared);
    assert_eq!(read_provider(&None), "read");
    assert_eq!(read_provider(&Some("pi".to_owned())), "pi");
}

#[test]
fn beliefs_need_a_statement_and_a_citation() {
    let cited = vec!["a.rs".to_owned()];
    assert!(matches!(check_belief("  ", &cited), Err(WorkspaceError::InvalidClaim(m)) if m == "statement must not be empty"));
    assert!(matches!(check_belief("x", &Vec::new()), Err(WorkspaceError::InvalidClaim(m)) if m == "a belief must rest on at least one cited path"));
    assert!(check_belief("x", &cited).is_ok());
    assert!(matches!(next_belief_path(&cited, "a.rs"), Ok(None)));
    assert!(matches!(next_belief_path(&cited, "b.rs"), Ok(Some(p)) if p == "b.rs"));
    assert!(matches!(next_belief_path(&cited, "/b.rs"), Err(WorkspaceError::InvalidPath(_))));
}

#[test]
fn siblings_share_the_directory_and_extension() {
    let supporting = vec!["src/a.rs".to_owned(), "b.py".to_owned()];
    let entry = |name: &str, is_file: bool| DirEntryInfo {
        name: name.to_owned(),
        is_file,
    };
    let listings = vec![
        vec![
            entry("a.rs", true),
            entry("z.rs", true),
            entry("c.rs", true),
            entry("c.md", true),
            entry("dir.rs", false),
        ],
        vec![entry("b.py", true), entry("c.py", true), entry("c.py", true)],
    ];
    assert_eq!(
        conservative_sibling_dependencies(&supporting, &listings),
        vec!["c.py".to_owned(), "src/c.rs".to_owned(), "src/z.rs".to_owned()]
    );
}

#[test]
fn worktree_listing_is_sorted_and_fingerprinted() {
    let paths = worktree_paths(b"b.txt\0a.txt\0\0dir\0").ok().unwrap();
    assert_eq!(paths, vec!["a.txt".to_owned(), "b.txt".to_owned(), "dir".to_owned()]);
    assert!(matches!(worktree_paths(b"ok\0\xff\0"), Err(WorkspaceError::Git(m)) if m.starts_with("non-UTF-8 Git path is not yet supported: ")));
    let entries = vec![
        WorktreeEntry::File { bytes: b"A".to_vec() },
        WorktreeEntry::Missing,
        WorktreeEntry::Directory,
    ];
    let expected = sha_hex(b"a.txt\0A\0b.txt\0<missing>\0dir\0<directory>\0");
    assert_eq!(worktree_fingerprint(&paths, &entries), expected);
    let link = vec![WorktreeEntry::Symlink { target: b"t".to_vec() }];
    assert_eq!(
        worktree_fingerprint(&vec!["l".to_owned()], &link),
        sha_hex(b"l\0<symlink>t\0")
    );
}

#[test]
fn the_pinned_commit_is_the_third_word_of_the_gitlink() {
    assert_eq!(
        pinned_revision("160000 commit abc123\tsub", "sub").ok(),
        Some("abc123".to_owned())
    );
    assert!(matches!(
        pinned_revision("", "sub"),
        Err(WorkspaceError::Git(m)) if m == "superproject base has no gitlink for submodule sub"
    ));
}

#[test]
fn normalizers_follow_the_configured_extension() {
    let mut config = NormalizerConfig::builtin_default();
    assert_eq!(config.for_path("src/lib.rs"), Normalizer::Rustfmt);
    assert_eq!(config.for_path("README.md"), Normalizer::Raw);
    assert!(config.declare("PY", "black").is_ok());
    assert_eq!(config.for_path("x.py"), Normalizer::Black);
    assert!(matches!(config.declare("ts", "nope"), Err(WorkspaceError::InvalidConfig(_))));
    assert_eq!(config.for_path("x.ts"), Normalizer::Raw);
}

#[test]
fn the_state_root_follows_overrides_then_the_environment() {
    let id = project_identity("/repo");
    assert_eq!(id, sha_hex(b"/repo"));
    assert_eq!(
        resolve_state_root(Some("/ws"), None, None, None, None, &id).ok(),
        Some("/ws".to_owned())
    );
    assert!(resolve_state_root(None, None, None, None, None, &id).is_err());
    let from_home = resolve_state_root(None, None, None, None, Some("/home/u"), &id).ok().unwrap();
    assert!(from_home.starts_with("/home/u/.local/state/agent-workspace"));
    assert!(from_home.ends_with(&id));
}

#[test]
fn wake_shaping_helpers_hold_their_forms() {
    assert_eq!(one_line("  a\n\tb  c "), "a b c");
    assert_eq!(kind_rank(EntityRef::Claim(1)), 0);
    assert_eq!(kind_rank(EntityRef::Knowledge(1)), 4);
    assert_eq!(EntityRef::Transaction(12).label(), "t12");
    assert_eq!(source_label(SourceState::Unavailable), "unavailable");
    assert_eq!(Marker::StaleRecorded.symbol(), "!+");
    assert_eq!(Marker::Open.symbol(), "open");
    let short = "x".repeat(10);
    assert_eq!(enforce_budget(short.clone()), short);
    let long = "é".repeat(600);
    let cut = enforce_budget(long);
    assert!(cut.len() <= 1000 && cut.ends_with("…\n"), "{}", cut.len());
    let input = WakeInput {
        active_claims: 2,
        ..WakeInput::default()
    };
    assert_eq!(claims_line(&input), "claims: 2 active, none stale");
}

fn input(path: &str, recorded: &str) -> ClaimInput {
    ClaimInput {
        path: path.to_owned(),
        selector: ObservationSelector::WholeFile,
        normalizer: Normalizer::Raw,
        recorded_input_fingerprint: recorded.to_owned(),
        recorded_raw_fingerprint: None,
        source: ClaimInputSource::SupportingObservation,
    }
}

fn read(unit: &str) -> LocationRead {
    LocationRead::Read { unit: unit.to_owned(), container: "c".to_owned() }
}

#[test]
fn a_claim_is_stale_once_an_input_moved_on_and_unknown_on_doubt_alone() {
    let inputs = vec![input("a.rs", "x"), input("b.rs", "y")];
    let (f, reason, _) = claim_inputs_verdict("rev", &inputs, &vec![read("x"), read("y")]);
    assert_eq!(f, FreshnessWithinScope::Current);
    assert_eq!(reason, "recorded claim inputs unchanged");
    let (f, _, _) = claim_inputs_verdict("rev", &inputs, &vec![read("x"), LocationRead::Unverifiable]);
    assert_eq!(f, FreshnessWithinScope::Unknown);
    let (f, reason, _) = claim_inputs_verdict("rev", &inputs, &vec![read("changed"), LocationRead::Unverifiable]);
    assert_eq!(f, FreshnessWithinScope::Stale);
    assert_eq!(reason, "recorded claim input changed");
    let (f, reason, _) = claim_inputs_verdict("rev", &inputs, &vec![LocationRead::Unverifiable, LocationRead::Missing]);
    assert_eq!(f, FreshnessWithinScope::Stale);
    assert_eq!(reason, "recorded claim input unavailable");
}

#[test]
fn an_observation_survives_edits_outside_its_unit() {
    let selector = ObservationSelector::ByteRange { start: 0, end: 4 };
    let moved = LocationRead::Read { unit: "u".to_owned(), container: "other".to_owned() };
    let (f, reason, _) = location_freshness_verdict("rev", "a.rs", &selector, &moved, "u", "c");
    assert_eq!(f, FreshnessWithinScope::Current);
    assert_eq!(reason, "observed unit unchanged; container changed outside mediated unit");
    let (f, reason, _) = location_freshness_verdict("rev", "a.rs", &selector, &read("v"), "u", "c");
    assert_eq!(f, FreshnessWithinScope::Stale);
    assert_eq!(reason, "supporting input changed");
    let (f, _, _) = location_freshness_verdict("rev", "a.rs", &selector, &LocationRead::Missing, "u", "c");
    assert_eq!(f, FreshnessWithinScope::Stale);
}

#[test]
fn a_payload_is_written_once_and_a_collision_is_refused() {
    let fp = hex_digest(b"payload");
    assert_eq!(payload_store_plan(false, &StoredEntry::Missing, &fp).ok(), Some(true));
    let same = StoredEntry::Regular { bytes: b"payload".to_vec() };
    assert_eq!(payload_store_plan(false, &same, &fp).ok(), Some(false));
    let other = StoredEntry::Regular { bytes: b"other".to_vec() };
    assert!(matches!(
        payload_store_plan(false, &other, &fp),
        Err(WorkspaceError::CorruptLog(m)) if m == format!("native payload collision for {fp}")
    ));
    assert!(matches!(
        payload_store_plan(true, &StoredEntry::Missing, &fp),
        Err(WorkspaceError::InvalidObservation(m)) if m == "payload storage is not a regular directory"
    ));
}

fn transaction_with(mutations: Vec<Mutation>) -> Transaction {
    Transaction {
        id: 1,
        intent: None,
        base_revision: "0123456789abcdef0123456789abcdef01234567".to_owned(),
        initial_worktree_fingerprint: "clean".to_owned(),
        acceptance_claim_ids: Vec::new(),
        evidence_ids: Vec::new(),
        finding_ids: Vec::new(),
        residual_risks: Vec::new(),
        mutations,
        state: TransactionState::Open,
        last_rejection: None,
    }
}

fn mutation(path: &str, before: &str, after: &str) -> Mutation {
    Mutation { path: path.to_owned(), before_fingerprint: before.to_owned(), after_fingerprint: after.to_owned() }
}

#[test]
fn candidate_fingerprint_ignores_the_order_of_mutations() {
    let forward = transaction_with(vec![mutation("src/a.rs", "a0", "a1"), mutation("src/b.rs", "b0", "b1")]);
    let backward = transaction_with(vec![mutation("src/b.rs", "other", "b1"), mutation("src/a.rs", "a0", "a1")]);
    assert_eq!(forward.candidate_fingerprint(), backward.candidate_fingerprint());
    // The material is each path, a NUL, its after-fingerprint and a newline, in path order.
    assert_eq!(forward.candidate_fingerprint(), sha_hex(b"src/a.rs\0a1\nsrc/b.rs\0b1\n"));
    let changed = transaction_with(vec![mutation("src/a.rs", "a0", "a2"), mutation("src/b.rs", "b0", "b1")]);
    assert_ne!(forward.candidate_fingerprint(), changed.candidate_fingerprint());
    assert_eq!(
        transaction_with(Vec::new()).candidate_fingerprint(),
        "e3b0c44298fc1c149afbf4c8996fb92427ae41e4649b934ca495991b7852b855"
    );
}

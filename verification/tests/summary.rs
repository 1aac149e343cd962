use agent_workspace::model::{EntityRef, SourceState};
use agent_workspace::summary::{
    clip, compose, headline, normalized, render, Marker, WakeBinding, WakeCheckpoint, WakeInput,
    WakeItem, ELLIPSIS, HEADER, WAKE_BUDGET_BYTES,
};

/// Worst-case skeleton bound: leaves room for at least one full-form upgrade.
/// Holds for ids below 100,000; beyond that the hard budget clip still
/// applies.
const SKELETON_BUDGET_BYTES: usize = 750;

fn item(marker: Marker, entity: EntityRef, text: &str) -> WakeItem {
    WakeItem {
        marker,
        entity,
        text: text.to_owned(),
    }
}

fn binding(
    id: u64,
    headline: &str,
    reference: Option<&str>,
    source: Option<SourceState>,
) -> WakeBinding {
    WakeBinding {
        id,
        headline: headline.to_owned(),
        reference: reference.map(str::to_owned),
        source,
    }
}

/// Every section at its cap with maximal text and ids below 100,000.
fn worst_case() -> WakeInput {
    let long = "claim text ".repeat(60);
    let mut news: Vec<WakeItem> = [Marker::StaleRecorded, Marker::Stale, Marker::Recorded]
        .into_iter()
        .flat_map(|marker| [marker, marker])
        .enumerate()
        .map(|(n, marker)| item(marker, EntityRef::Claim(99_999 - n as u64), &long))
        .collect();
    news.extend((0..34).map(|n| item(Marker::Ended, EntityRef::Claim(90_000 - n), &long)));
    WakeInput {
        goal: Some("goal word ".repeat(100)),
        checkpoint: Some(WakeCheckpoint {
            label: "label".repeat(40),
            note: Some("note word ".repeat(100)),
            news,
            reads_captured: 99_999,
            goal_changed: true,
        }),
        active_claims: 99_999,
        stale_claim_ids: (0..40).map(|n| 99_999 - n).collect(),
        open: (0..40)
            .map(|n| {
                let entity = if n % 2 == 0 {
                    EntityRef::Finding(99_999 - n)
                } else {
                    EntityRef::Transaction(99_999 - n)
                };
                item(Marker::Open, entity, &long)
            })
            .collect(),
        governs: (0..20)
            .map(|n| {
                let source = if n % 2 == 0 {
                    SourceState::Changed
                } else {
                    SourceState::Current
                };
                binding(
                    99_999 - n,
                    &"governing rule ".repeat(20),
                    Some(&"../repository/".repeat(20)),
                    Some(source),
                )
            })
            .collect(),
    }
}

#[test]
fn skeleton_worst_case_leaves_room_for_an_upgrade() {
    let skeleton = compose(&normalized(&worst_case()), &Vec::new());
    assert!(
        skeleton.len() <= SKELETON_BUDGET_BYTES,
        "skeleton is {} bytes:\n{skeleton}",
        skeleton.len()
    );
    assert!(
        skeleton.contains("governs: k99999! k99998 k99997! (+17 more)"),
        "{skeleton}"
    );
}

#[test]
fn governing_knowledge_reads_as_pointer_lines_after_the_last_stop() {
    let text = render(&WakeInput {
        goal: Some("ship the pulse".to_owned()),
        checkpoint: Some(WakeCheckpoint {
            label: "c0".to_owned(),
            news: vec![item(Marker::Recorded, EntityRef::Claim(4), "foo returns one")],
            ..WakeCheckpoint::default()
        }),
        governs: vec![
            binding(1, "Keep modules pure", None, None),
            binding(
                2,
                "Curated knowledge lives in OKF",
                Some("../kb:decisions/boundary.md"),
                Some(SourceState::Current),
            ),
        ],
        ..WakeInput::default()
    });
    assert_eq!(
        text,
        format!(
            "{HEADER}\ngoal: ship the pulse\nstopped at c0\nk1 Keep modules pure\n\
             k2 Curated knowledge lives in OKF → ../kb:decisions/boundary.md\n\
             since then:\n+ c4 foo returns one\n"
        )
    );
}

#[test]
fn a_changed_governing_source_outranks_newly_stale_claims() {
    let long = "claim text ".repeat(20);
    let news = (1..=6)
        .map(|n| item(Marker::Stale, EntityRef::Claim(n), &long))
        .collect();
    let text = render(&WakeInput {
        goal: Some("goal word ".repeat(100)),
        checkpoint: Some(WakeCheckpoint {
            label: "c0".to_owned(),
            note: Some("note word ".repeat(100)),
            news,
            ..WakeCheckpoint::default()
        }),
        governs: vec![binding(
            9,
            &"governing rule ".repeat(6),
            Some("../kb:decisions/boundary.md"),
            Some(SourceState::Changed),
        )],
        ..WakeInput::default()
    });
    assert!(text.len() <= WAKE_BUDGET_BYTES);
    assert!(
        text.contains("\nmore: "),
        "fixture must be under pressure: {text}"
    );
    assert!(text.contains("\nk9 [changed] governing rule"), "{text}");
}

#[test]
fn render_stays_within_budget_and_accounts_for_what_it_cut() {
    let text = render(&worst_case());
    assert!(text.len() <= WAKE_BUDGET_BYTES, "{} bytes", text.len());
    assert!(
        text.lines().any(|line| line.starts_with("more: ")),
        "{text}"
    );
    assert!(text.contains("(+35 more)"), "{text}");
    assert!(text.contains("(+35 more)") && text.contains("claims: 99999 active"));
}

#[test]
fn quiet_workspace_renders_nothing() {
    assert_eq!(render(&WakeInput::default()), "");
}

#[test]
fn unchanged_checkpoint_has_no_since_section() {
    let text = render(&WakeInput {
        goal: Some("ship the wake".to_owned()),
        checkpoint: Some(WakeCheckpoint {
            label: "c0".to_owned(),
            ..WakeCheckpoint::default()
        }),
        ..WakeInput::default()
    });
    assert_eq!(text, format!("{HEADER}\ngoal: ship the wake\nstopped at c0\n"));
}

#[test]
fn newly_stale_news_is_upgraded_before_new_claims() {
    let long = "claim text ".repeat(20);
    let news = |markers: &[Marker]| -> Vec<WakeItem> {
        markers
            .iter()
            .enumerate()
            .map(|(n, marker)| item(*marker, EntityRef::Claim(n as u64 + 1), &long))
            .collect()
    };
    let input = |news| WakeInput {
        goal: Some("goal word ".repeat(100)),
        checkpoint: Some(WakeCheckpoint {
            label: "c0".to_owned(),
            note: Some("note word ".repeat(100)),
            news,
            ..WakeCheckpoint::default()
        }),
        ..WakeInput::default()
    };
    let is_full = |line: &str, symbol: &str| {
        line.starts_with(&format!("{symbol} c")) && line.contains("claim text")
    };

    let pressured = render(&input(news(&[
        Marker::Stale,
        Marker::Stale,
        Marker::Stale,
        Marker::Stale,
        Marker::Recorded,
        Marker::Recorded,
    ])));
    assert!(pressured.len() <= WAKE_BUDGET_BYTES);
    assert!(
        pressured.contains("\nmore: "),
        "fixture must be under pressure: {pressured}"
    );
    // Same-sized items: a new claim in full while a newly stale one is left
    // short would be a priority inversion.
    let stale_full = pressured.lines().filter(|line| is_full(line, "!")).count();
    let recorded_full = pressured.lines().any(|line| is_full(line, "+"));
    assert!(stale_full > 0, "{pressured}");
    assert!(!recorded_full || stale_full == 4, "inversion: {pressured}");

    // Without the stale items, their bytes go to the next priority.
    let relieved = render(&input(news(&[
        Marker::Recorded,
        Marker::Recorded,
        Marker::Recorded,
        Marker::Recorded,
    ])));
    assert!(relieved.lines().any(|line| is_full(line, "+")), "{relieved}");
}

#[test]
fn aged_stale_claims_show_ids_never_headlines() {
    let text = render(&WakeInput {
        goal: Some("ship the wake".to_owned()),
        active_claims: 30,
        stale_claim_ids: (1..=30).collect(),
        ..WakeInput::default()
    });
    assert!(
        text.contains("claims: 30 active, 30 stale: c30 c29 c28 c27 c26 (+25 more)\n"),
        "{text}"
    );
}

#[test]
fn a_claim_recorded_and_stale_since_the_checkpoint_is_one_line() {
    let text = render(&WakeInput {
        checkpoint: Some(WakeCheckpoint {
            label: "c0".to_owned(),
            news: vec![item(Marker::StaleRecorded, EntityRef::Claim(5), "foo returns one")],
            ..WakeCheckpoint::default()
        }),
        ..WakeInput::default()
    });
    assert_eq!(text.matches("c5").count(), 1, "{text}");
    assert!(text.contains("\n!+ c5 foo returns one\n"), "{text}");
}

#[test]
fn rendering_is_deterministic_whatever_the_input_order() {
    let mut shuffled = worst_case();
    shuffled.open.reverse();
    if let Some(checkpoint) = shuffled.checkpoint.as_mut() {
        checkpoint.news.reverse();
    }
    shuffled.stale_claim_ids.reverse();
    assert_eq!(render(&worst_case()), render(&shuffled));
}

#[test]
fn clipping_is_utf8_safe_one_line_and_marks_cuts() {
    let (text, cut) = clip(&"é".repeat(200), 50);
    assert!(cut && text.len() <= 50 && text.ends_with(ELLIPSIS), "{text}");
    assert_eq!(clip("two\nlines", 50), ("two lines".to_owned(), false));
    assert_eq!(
        headline("First sentence. Second one.", 100),
        ("First sentence. …".to_owned(), true)
    );
    assert_eq!(
        headline("No full stop", 100),
        ("No full stop".to_owned(), false)
    );
}

#[test]
fn ended_entities_appear_by_id_never_by_their_retired_text() {
    let text = render(&WakeInput {
        checkpoint: Some(WakeCheckpoint {
            label: "c0".to_owned(),
            news: vec![item(
                Marker::Ended,
                EntityRef::Claim(17),
                "The legend palette supports 12 distinct series colors",
            )],
            ..WakeCheckpoint::default()
        }),
        ..WakeInput::default()
    });
    assert!(text.contains("\n- c17\n"), "{text}");
    assert!(
        !text.contains("palette"),
        "retired text must not read as fact: {text}"
    );
}

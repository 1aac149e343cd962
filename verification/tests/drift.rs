use agent_workspace::drift::{
    cap_text, count_subslice, hunk_overlaps_new_span, scope_diff_to_span, selector_line_span,
};
use agent_workspace::model::ObservationSelector;

const TWO_HUNK_DIFF: &str = "diff --git a/x b/x\n--- a/x\n+++ b/x\n@@ -1,3 +1,3 @@\n a\n-b\n+B\n c\n@@ -20,3 +20,3 @@\n x\n-y\n+Y\n z\n";

#[test]
fn scope_keeps_only_hunks_overlapping_the_selector_lines() {
    let early = scope_diff_to_span(TWO_HUNK_DIFF, Some((1, 3)));
    assert!(early.contains("+B"), "first hunk kept: {early}");
    assert!(!early.contains("+Y"), "second hunk dropped: {early}");
    assert!(early.contains("+++ b/x"), "header preserved: {early}");

    let late = scope_diff_to_span(TWO_HUNK_DIFF, Some((20, 22)));
    assert!(late.contains("+Y"), "second hunk kept: {late}");
    assert!(!late.contains("+B"), "first hunk dropped: {late}");
}

#[test]
fn whole_file_selector_keeps_the_entire_diff() {
    assert_eq!(scope_diff_to_span(TWO_HUNK_DIFF, None), TWO_HUNK_DIFF);
}

#[test]
fn hunk_overlap_handles_zero_count_and_unparseable_headers() {
    // Fail open on display: an unreadable header is kept, never silently lost.
    assert!(hunk_overlaps_new_span("@@ garbage @@", 1, 1));
    // `+5,0` is a pure deletion anchored at new line 5.
    assert!(hunk_overlaps_new_span("@@ -5,2 +5,0 @@", 5, 5));
    assert!(!hunk_overlaps_new_span("@@ -5,2 +5,0 @@", 1, 3));
}

#[test]
fn selector_line_span_counts_newlines() {
    let text = "one\ntwo\nthree\n";
    // Bytes 4..7 are "two" — the second line.
    assert_eq!(
        selector_line_span(text, &ObservationSelector::ByteRange { start: 4, end: 7 }),
        Some((2, 2))
    );
    assert_eq!(
        selector_line_span(text, &ObservationSelector::WholeFile),
        None
    );
}

#[test]
fn count_subslice_counts_non_overlapping_matches() {
    assert_eq!(count_subslice(b"abcabcabc", b"abc"), 3);
    assert_eq!(count_subslice(b"aaaa", b"aa"), 2); // non-overlapping
    assert_eq!(count_subslice(b"hello world", b"xyz"), 0);
    assert_eq!(count_subslice(b"", b"a"), 0);
    assert_eq!(count_subslice(b"a", b""), 0);
    assert_eq!(count_subslice(b"short", b"longer needle"), 0);
}

#[test]
fn cap_text_truncates_on_a_char_boundary() {
    let (text, truncated) = cap_text("abcdef", 3);
    assert_eq!(text, "abc");
    assert!(truncated);

    let (text, truncated) = cap_text("abc", 10);
    assert_eq!(text, "abc");
    assert!(!truncated);

    // A cap landing mid-multibyte-char backs off to the boundary below it.
    let (text, truncated) = cap_text("aé", 2);
    assert_eq!(text, "a");
    assert!(truncated);
}

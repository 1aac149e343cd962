//! Making a stale verdict legible: per-input drift status, a bounded view
//! of what the supporting file looks like now, and whether a changed unit
//! merely moved. Nothing here ever decides a verdict.

use vstd::prelude::*;

use crate::drift::{
    cap_text, count_subslice, occurrences, scope_diff_spec, scope_diff_to_span, selector_line_span,
    selector_window, selector_window_spec, line_span_spec, boundary_below,
};
use crate::model::{ClaimInput, FreshnessWithinScope, ObservationSelector};
use crate::reconcile::{LocationRead, LocationReadView};
use crate::text::{is_blank, is_blank_spec, utf8};

verus! {

/// A bounded view of a drifted supporting file.
pub enum DriftView {
    /// The diff against the committed baseline, scoped to the observed
    /// region.
    Diff { text: String, truncated: bool },
    /// The current bytes at the observed selector, when no baseline diff is
    /// available.
    CurrentContent { text: String, truncated: bool },
    /// The supporting file no longer exists.
    Missing,
}

/// Whether a changed unit's exact observed bytes still occur in the file.
#[derive(Clone, Copy, Debug, PartialEq, Eq, Structural)]
pub enum RelocationProbe {
    Relocated { occurrences: usize },
    Rewritten,
}

#[derive(Clone, Copy, Debug, PartialEq, Eq, Structural)]
pub enum DriftStatus {
    /// The recorded input fingerprint still stands.
    Unchanged,
    /// The observed unit's canonical form changed.
    Changed,
    /// The supporting file is gone.
    Unavailable,
    /// The unit could not be re-read to a fingerprint.
    Unverifiable,
}

/// Whether one supporting input drifted, and what it looks like now.
pub struct InputDrift {
    pub path: String,
    pub selector: ObservationSelector,
    pub status: DriftStatus,
    pub view: Option<DriftView>,
    pub relocation: Option<RelocationProbe>,
}

/// A claim's stale verdict made legible.
pub struct StaleExplanation {
    pub claim_id: u64,
    pub statement: String,
    pub freshness: FreshnessWithinScope,
    pub reason: String,
    pub inputs: Vec<InputDrift>,
}

pub open spec fn drift_status_spec(read: LocationReadView, recorded_input: Seq<char>) -> DriftStatus {
    match read {
        LocationReadView::Read { unit, .. } => if unit == recorded_input {
            DriftStatus::Unchanged
        } else {
            DriftStatus::Changed
        },
        LocationReadView::Missing => DriftStatus::Unavailable,
        LocationReadView::Unverifiable => DriftStatus::Unverifiable,
    }
}

/// Classify one input against its recorded fingerprint; "changed" means
/// exactly what stales a claim.
pub fn drift_status(read: &LocationRead, recorded_input: &str) -> (r: DriftStatus)
    ensures
        r == drift_status_spec(read@, recorded_input@),
{
    match read {
        LocationRead::Read { unit, .. } => if crate::text::str_equal(unit.as_str(), recorded_input) {
            DriftStatus::Unchanged
        } else {
            DriftStatus::Changed
        },
        LocationRead::Missing => DriftStatus::Unavailable,
        LocationRead::Unverifiable => DriftStatus::Unverifiable,
    }
}

pub open spec fn relocation_spec(
    selector: ObservationSelector,
    observed_unit: Option<Seq<u8>>,
    current: Option<Seq<u8>>,
) -> Option<RelocationProbe> {
    match (selector, observed_unit, current) {
        (ObservationSelector::ByteRange { .. }, Some(old), Some(now)) => if old.len() == 0 {
            None
        } else if occurrences(now, old) == 0 {
            Some(RelocationProbe::Rewritten)
        } else {
            Some(RelocationProbe::Relocated { occurrences: occurrences(now, old) as usize })
        },
        _ => None,
    }
}

/// Whether a changed byte-range unit's observed bytes (as they were at the
/// capture revision) still occur in the current file. A whole-file unit,
/// an unretrievable baseline or an empty unit give no answer.
pub fn probe_relocation(
    selector: &ObservationSelector,
    observed_unit: Option<&[u8]>,
    current: Option<&[u8]>,
) -> (r: Option<RelocationProbe>)
    requires
        current matches Some(c) ==> c@.len() <= usize::MAX,
    ensures
        r == relocation_spec(
            *selector,
            match observed_unit {
                Some(u) => Some(u@),
                None => None,
            },
            match current {
                Some(c) => Some(c@),
                None => None,
            },
        ),
{
    match selector {
        ObservationSelector::WholeFile => None,
        ObservationSelector::ByteRange { .. } => match (observed_unit, current) {
            (Some(old), Some(now)) => {
                if old.len() == 0 {
                    return None;
                }
                let n = count_subslice(now, old);
                if n == 0 {
                    Some(RelocationProbe::Rewritten)
                } else {
                    Some(RelocationProbe::Relocated { occurrences: n })
                }
            },
            _ => None,
        },
    }
}

/// A bounded, selector-scoped view of a drifted supporting file, from its
/// current text (`None` when it is gone) and the diff against its baseline
/// (`None` when none is available).
pub fn investigate_drift(
    text: Option<&str>,
    selector: &ObservationSelector,
    diff: Option<&str>,
    max_bytes: usize,
) -> (r: DriftView)
    requires
        text matches Some(t) ==> utf8(t@).len() < usize::MAX,
    ensures
        text is None ==> r is Missing,
        text matches Some(t) ==> match r {
            DriftView::Diff { text: out, truncated } => diff matches Some(d) && {
                let span = match line_span_spec(utf8(t@), *selector) {
                    Some((a, b)) => Some((a as usize, b as usize)),
                    None => None,
                };
                let scoped = scope_diff_spec(d@, span);
                &&& !is_blank_spec(scoped)
                &&& truncated == (utf8(scoped).len() > max_bytes)
                &&& (!truncated ==> out@ == scoped)
                &&& (truncated ==> utf8(out@) == utf8(scoped).take(
                    boundary_below(utf8(scoped), max_bytes as int),
                ))
            },
            DriftView::CurrentContent { text: out, truncated } => {
                let span = match line_span_spec(utf8(t@), *selector) {
                    Some((a, b)) => Some((a as usize, b as usize)),
                    None => None,
                };
                let window = selector_window_spec(utf8(t@), *selector);
                &&& (diff matches Some(d) ==> is_blank_spec(scope_diff_spec(d@, span)))
                &&& truncated == (window.len() > max_bytes)
                &&& (!truncated ==> utf8(out@) == window)
                &&& (truncated ==> utf8(out@) == window.take(boundary_below(window, max_bytes as int)))
            },
            DriftView::Missing => false,
        },
{
    let t = match text {
        None => {
            return DriftView::Missing;
        },
        Some(t) => t,
    };
    let span = selector_line_span(t, selector);
    match diff {
        Some(d) => {
            let scoped = scope_diff_to_span(d, span);
            if !is_blank(scoped.as_str()) {
                let (out, truncated) = cap_text(scoped.as_str(), max_bytes);
                return DriftView::Diff { text: out, truncated };
            }
        },
        None => {},
    }
    let window = selector_window(t, selector);
    let (out, truncated) = cap_text(window, max_bytes);
    DriftView::CurrentContent { text: out, truncated }
}

pub open spec fn input_drift_view(
    status: DriftStatus,
    investigated: Option<DriftView>,
) -> Option<DriftView> {
    match status {
        DriftStatus::Unchanged => None,
        DriftStatus::Unavailable => Some(DriftView::Missing),
        _ => investigated,
    }
}

/// One input's drift record: unchanged inputs carry no view; a missing file
/// shows as missing; a changed or unverifiable one carries the
/// investigated view; only a changed one carries a relocation probe.
pub fn input_drift(
    input: &ClaimInput,
    read: &LocationRead,
    investigated: Option<DriftView>,
    relocation: Option<RelocationProbe>,
) -> (r: InputDrift)
    ensures
        r.path@ == input.path@,
        r.selector == input.selector,
        r.status == drift_status_spec(read@, input.recorded_input_fingerprint@),
        r.view == input_drift_view(r.status, investigated),
        r.relocation == if r.status == DriftStatus::Changed {
            relocation
        } else {
            None
        },
{
    let status = drift_status(read, input.recorded_input_fingerprint.as_str());
    let view = match status {
        DriftStatus::Unchanged => None,
        DriftStatus::Unavailable => Some(DriftView::Missing),
        _ => investigated,
    };
    let relocation = match status {
        DriftStatus::Changed => relocation,
        _ => None,
    };
    InputDrift { path: input.path.clone(), selector: input.selector, status, view, relocation }
}

} // verus!

//! Reconciliation: turning what the repository holds now into freshness
//! verdicts and reconciliation fingerprints. The repository is read by the
//! caller; these functions decide on what was read.

use vstd::prelude::*;
use vstd::string::*;
use vstd::utf8::*;

use crate::digest::{hex_digest, hex_digest_spec};
use crate::error::WorkspaceError;
use crate::model::{
    opt_str, ClaimInput, ClaimInputView, FreshnessReport, FreshnessWithinScope, Normalizer,
    ObservationSelector,
};
use crate::text::{append_bytes, decimal, push_decimal, str_bytes, string_from_utf8, utf8};

verus! {

/// A reconciliation is a no-op when the recomputed verdict equals the last
/// persisted one.
pub fn verdict_unchanged(
    report: &FreshnessReport,
    freshness: FreshnessWithinScope,
    reason: &str,
    reconciliation_fingerprint: &str,
) -> (r: bool)
    ensures
        r == (report.freshness_within_scope == freshness && report.reason@ == reason@
            && report.operational_coverage.reconciliation_fingerprint@ == reconciliation_fingerprint@),
{
    report.freshness_within_scope == freshness && crate::text::str_equal(report.reason.as_str(), reason)
        && crate::text::str_equal(
        report.operational_coverage.reconciliation_fingerprint.as_str(),
        reconciliation_fingerprint,
    )
}

// ---------------------------------------------------------------------------
// Re-reading a bound location.
/// What re-reading one bound location gave: the unit and container
/// fingerprints, or that the file is gone, or that it could not be read.
pub enum LocationRead {
    Read { unit: String, container: String },
    Missing,
    Unverifiable,
}

pub enum LocationReadView {
    Read { unit: Seq<char>, container: Seq<char> },
    Missing,
    Unverifiable,
}

impl View for LocationRead {
    type V = LocationReadView;

    open spec fn view(&self) -> LocationReadView {
        match self {
            LocationRead::Read { unit, container } => LocationReadView::Read {
                unit: unit@,
                container: container@,
            },
            LocationRead::Missing => LocationReadView::Missing,
            LocationRead::Unverifiable => LocationReadView::Unverifiable,
        }
    }
}

pub open spec fn read_unit(r: LocationReadView) -> Option<Seq<char>> {
    match r {
        LocationReadView::Read { unit, .. } => Some(unit),
        _ => None,
    }
}

/// The verdict for one bound location.
pub open spec fn location_verdict_spec(
    read: LocationReadView,
    observed_input: Seq<char>,
    observed_container: Seq<char>,
) -> (FreshnessWithinScope, Seq<char>) {
    match read {
        LocationReadView::Read { unit, container } => if unit == observed_input {
            (
                FreshnessWithinScope::Current,
                if container == observed_container {
                    "supporting input unchanged"@
                } else {
                    "observed unit unchanged; container changed outside mediated unit"@
                },
            )
        } else {
            (FreshnessWithinScope::Stale, "supporting input changed"@)
        },
        LocationReadView::Missing => (FreshnessWithinScope::Stale, "supporting input unavailable"@),
        LocationReadView::Unverifiable => (
            FreshnessWithinScope::Unknown,
            "supporting input could not be verified"@,
        ),
    }
}

// ---------------------------------------------------------------------------
// Reconciliation fingerprints.
/// `v` as `n` little-endian bytes.
pub open spec fn le_bytes(v: nat, n: nat) -> Seq<u8>
    decreases n,
{
    if n == 0 {
        Seq::empty()
    } else {
        seq![(v % 256) as u8] + le_bytes(v / 256, (n - 1) as nat)
    }
}

/// How a selector enters fingerprint material; offsets as eight
/// little-endian bytes.
pub open spec fn selector_material(selector: ObservationSelector) -> Seq<u8> {
    match selector {
        ObservationSelector::WholeFile => utf8("whole_file"@),
        ObservationSelector::ByteRange { start, end } => utf8("byte_range"@) + le_bytes(
            start as nat,
            8,
        ) + le_bytes(end as nat, 8),
    }
}

pub open spec fn or_missing(s: Option<Seq<char>>) -> Seq<char> {
    match s {
        Some(x) => x,
        None => "<missing>"@,
    }
}

/// The material of a single location's reconciliation fingerprint.
pub open spec fn observation_material(
    revision: Seq<char>,
    path: Seq<char>,
    selector: ObservationSelector,
    unit: Option<Seq<char>>,
    container: Option<Seq<char>>,
) -> Seq<u8> {
    utf8(revision) + seq![0u8] + utf8(path) + seq![0u8] + selector_material(selector) + seq![0u8]
        + utf8(or_missing(unit)) + seq![0u8] + utf8(or_missing(container))
}

/// One input of a scoped reconciliation fingerprint.
pub struct FingerprintInput {
    pub path: String,
    pub selector: ObservationSelector,
    pub input_fingerprint: Option<String>,
}

pub struct FingerprintInputView {
    pub path: Seq<char>,
    pub selector: ObservationSelector,
    pub input_fingerprint: Option<Seq<char>>,
}

impl View for FingerprintInput {
    type V = FingerprintInputView;

    open spec fn view(&self) -> FingerprintInputView {
        FingerprintInputView {
            path: self.path@,
            selector: self.selector,
            input_fingerprint: opt_str(self.input_fingerprint),
        }
    }
}

pub open spec fn scoped_entries(inputs: Seq<FingerprintInputView>) -> Seq<u8>
    decreases inputs.len(),
{
    if inputs.len() == 0 {
        Seq::empty()
    } else {
        let x = inputs.last();
        scoped_entries(inputs.drop_last()) + seq![0u8] + utf8(x.path) + seq![0u8]
            + selector_material(x.selector) + seq![0u8] + utf8(or_missing(x.input_fingerprint))
    }
}

/// The material of a claim's (or evidence's) reconciliation fingerprint.
pub open spec fn scoped_material(revision: Seq<char>, inputs: Seq<FingerprintInputView>) -> Seq<u8> {
    utf8(revision) + scoped_entries(inputs)
}

fn push_le_bytes(m: &mut Vec<u8>, v: u64)
    ensures
        final(m)@ == old(m)@ + le_bytes(v as nat, 8),
{
    let ghost start = old(m)@;
    let mut x = v;
    let mut k: usize = 0;
    while k < 8
        invariant
            k <= 8,
            start + le_bytes(v as nat, 8) == m@ + le_bytes(x as nat, (8 - k) as nat),
        decreases 8 - k,
    {
        let ghost before = m@;
        m.push((x % 256) as u8);
        proof {
            assert(le_bytes(x as nat, (8 - k) as nat) == seq![(x % 256) as u8] + le_bytes(
                (x / 256) as nat,
                (8 - k - 1) as nat,
            ));
            assert(m@ + le_bytes((x / 256) as nat, (8 - k - 1) as nat) =~= before + le_bytes(
                x as nat,
                (8 - k) as nat,
            ));
        }
        x = x / 256;
        k = k + 1;
    }
    assert(le_bytes(x as nat, 0) =~= Seq::<u8>::empty());
    assert(m@ =~= m@ + le_bytes(x as nat, 0));
}

fn push_str(m: &mut Vec<u8>, s: &str)
    ensures
        final(m)@ == old(m)@ + utf8(s@),
{
    let b = str_bytes(s);
    append_bytes(m, &b);
}

fn push_selector(m: &mut Vec<u8>, selector: &ObservationSelector)
    ensures
        final(m)@ == old(m)@ + selector_material(*selector),
{
    match selector {
        ObservationSelector::WholeFile => {
            push_str(m, "whole_file");
        },
        ObservationSelector::ByteRange { start, end } => {
            let ghost s0 = m@;
            push_str(m, "byte_range");
            push_le_bytes(m, *start as u64);
            push_le_bytes(m, *end as u64);
            assert(m@ =~= s0 + selector_material(*selector));
        },
    }
}

fn push_opt(m: &mut Vec<u8>, s: Option<&str>)
    ensures
        final(m)@ == old(m)@ + utf8(
            or_missing(
                match s {
                    Some(x) => Some(x@),
                    None => None,
                },
            ),
        ),
{
    match s {
        Some(x) => push_str(m, x),
        None => push_str(m, "<missing>"),
    }
}

/// The reconciliation fingerprint of one bound location at `revision`.
pub fn observation_reconciliation_fingerprint(
    revision: &str,
    path: &str,
    selector: &ObservationSelector,
    unit: Option<&str>,
    container: Option<&str>,
) -> (r: String)
    ensures
        r@ == hex_digest_spec(
            observation_material(
                revision@,
                path@,
                *selector,
                match unit {
                    Some(x) => Some(x@),
                    None => None,
                },
                match container {
                    Some(x) => Some(x@),
                    None => None,
                },
            ),
        ),
{
    let mut m: Vec<u8> = Vec::new();
    push_str(&mut m, revision);
    m.push(0u8);
    push_str(&mut m, path);
    m.push(0u8);
    push_selector(&mut m, selector);
    m.push(0u8);
    push_opt(&mut m, unit);
    m.push(0u8);
    push_opt(&mut m, container);
    assert(m@ =~= observation_material(
        revision@,
        path@,
        *selector,
        match unit {
            Some(x) => Some(x@),
            None => None,
        },
        match container {
            Some(x) => Some(x@),
            None => None,
        },
    ));
    hex_digest(m.as_slice())
}

fn push_entry(m: &mut Vec<u8>, x: &FingerprintInput)
    ensures
        final(m)@ == old(m)@ + (seq![0u8] + utf8(x@.path) + seq![0u8] + selector_material(x@.selector)
            + seq![0u8] + utf8(or_missing(x@.input_fingerprint))),
{
    let ghost before = m@;
    m.push(0u8);
    push_str(m, x.path.as_str());
    m.push(0u8);
    push_selector(m, &x.selector);
    m.push(0u8);
    match &x.input_fingerprint {
        Some(f) => push_str(m, f.as_str()),
        None => push_str(m, "<missing>"),
    }
    assert(m@ =~= before + (seq![0u8] + utf8(x@.path) + seq![0u8] + selector_material(x@.selector)
        + seq![0u8] + utf8(or_missing(x@.input_fingerprint))));
}

/// The reconciliation fingerprint of a set of inputs at `revision`.
pub fn scoped_reconciliation_fingerprint(revision: &str, inputs: &Vec<FingerprintInput>) -> (r: String)
    ensures
        r@ == hex_digest_spec(scoped_material(revision@, inputs@.map_values(|x: FingerprintInput| x@))),
{
    let ghost iv = inputs@.map_values(|x: FingerprintInput| x@);
    let mut m: Vec<u8> = Vec::new();
    push_str(&mut m, revision);
    let mut i: usize = 0;
    while i < inputs.len()
        invariant
            i <= inputs@.len(),
            iv == inputs@.map_values(|x: FingerprintInput| x@),
            m@ == utf8(revision@) + scoped_entries(iv.take(i as int)),
        decreases inputs.len() - i,
    {
        let x = &inputs[i];
        push_entry(&mut m, x);
        proof {
            assert(iv.take(i + 1).drop_last() =~= iv.take(i as int));
            assert(iv.take(i + 1).last() == x@);
            assert(m@ =~= utf8(revision@) + scoped_entries(iv.take(i + 1)));
        }
        i = i + 1;
    }
    assert(iv.take(inputs@.len() as int) =~= iv);
    hex_digest(m.as_slice())
}

/// The verdict and reconciliation fingerprint for one bound location.
pub fn location_freshness_verdict(
    revision: &str,
    path: &str,
    selector: &ObservationSelector,
    read: &LocationRead,
    observed_input_fingerprint: &str,
    observed_container_fingerprint: &str,
) -> (r: (FreshnessWithinScope, String, String))
    ensures
        (r.0, r.1@) == location_verdict_spec(
            read@,
            observed_input_fingerprint@,
            observed_container_fingerprint@,
        ),
        r.2@ == hex_digest_spec(
            observation_material(
                revision@,
                path@,
                *selector,
                read_unit(read@),
                match read@ {
                    LocationReadView::Read { container, .. } => Some(container),
                    _ => None,
                },
            ),
        ),
{
    let fingerprint = match read {
        LocationRead::Read { unit, container } => observation_reconciliation_fingerprint(
            revision,
            path,
            selector,
            Some(unit.as_str()),
            Some(container.as_str()),
        ),
        _ => observation_reconciliation_fingerprint(revision, path, selector, None, None),
    };
    let (freshness, reason) = match read {
        LocationRead::Read { unit, container } => {
            if crate::text::str_equal(unit.as_str(), observed_input_fingerprint) {
                if crate::text::str_equal(container.as_str(), observed_container_fingerprint) {
                    (FreshnessWithinScope::Current, "supporting input unchanged".to_owned())
                } else {
                    (
                        FreshnessWithinScope::Current,
                        "observed unit unchanged; container changed outside mediated unit".to_owned(),
                    )
                }
            } else {
                (FreshnessWithinScope::Stale, "supporting input changed".to_owned())
            }
        },
        LocationRead::Missing => (FreshnessWithinScope::Stale, "supporting input unavailable".to_owned()),
        LocationRead::Unverifiable => (
            FreshnessWithinScope::Unknown,
            "supporting input could not be verified".to_owned(),
        ),
    };
    (freshness, reason, fingerprint)
}

// ---------------------------------------------------------------------------
// Claim inputs.
/// The verdict over a claim's inputs given what re-reading each gave: any
/// changed or missing input stales the claim; an unreadable one makes it
/// unknown unless it is already stale.
pub open spec fn assess_spec(inputs: Seq<ClaimInputView>, reads: Seq<LocationReadView>) -> (
    FreshnessWithinScope,
    Seq<char>,
)
    decreases inputs.len(),
{
    if inputs.len() == 0 {
        (FreshnessWithinScope::Current, "recorded claim inputs unchanged"@)
    } else {
        let prev = assess_spec(inputs.drop_last(), reads);
        match reads[inputs.len() - 1] {
            LocationReadView::Read { unit, .. } => if unit == inputs.last().recorded_input_fingerprint {
                prev
            } else {
                (FreshnessWithinScope::Stale, "recorded claim input changed"@)
            },
            LocationReadView::Missing => (
                FreshnessWithinScope::Stale,
                "recorded claim input unavailable"@,
            ),
            LocationReadView::Unverifiable => if prev.0 != FreshnessWithinScope::Stale {
                (FreshnessWithinScope::Unknown, "recorded claim input could not be verified"@)
            } else {
                prev
            },
        }
    }
}

/// The fingerprint inputs a claim assessment yields: each input's location
/// and its current fingerprint when it could be read.
pub open spec fn assessed_inputs(inputs: Seq<ClaimInputView>, reads: Seq<LocationReadView>) -> Seq<
    FingerprintInputView,
> {
    Seq::new(
        inputs.len(),
        |i: int|
            FingerprintInputView {
                path: inputs[i].path,
                selector: inputs[i].selector,
                input_fingerprint: read_unit(reads[i]),
            },
    )
}

/// Assess a claim's inputs from what re-reading each of them gave.
pub fn assess_claim_inputs(inputs: &Vec<ClaimInput>, reads: &Vec<LocationRead>) -> (r: (
    FreshnessWithinScope,
    String,
    Vec<FingerprintInput>,
))
    requires
        reads@.len() == inputs@.len(),
    ensures
        (r.0, r.1@) == assess_spec(
            inputs@.map_values(|x: ClaimInput| x@),
            reads@.map_values(|x: LocationRead| x@),
        ),
        r.2@.map_values(|x: FingerprintInput| x@) == assessed_inputs(
            inputs@.map_values(|x: ClaimInput| x@),
            reads@.map_values(|x: LocationRead| x@),
        ),
{
    let ghost iv = inputs@.map_values(|x: ClaimInput| x@);
    let ghost rv = reads@.map_values(|x: LocationRead| x@);
    let mut freshness = FreshnessWithinScope::Current;
    let mut reason = "recorded claim inputs unchanged".to_owned();
    let mut out: Vec<FingerprintInput> = Vec::new();
    let mut i: usize = 0;
    while i < inputs.len()
        invariant
            i <= inputs@.len(),
            reads@.len() == inputs@.len(),
            iv == inputs@.map_values(|x: ClaimInput| x@),
            rv == reads@.map_values(|x: LocationRead| x@),
            (freshness, reason@) == assess_spec(iv.take(i as int), rv),
            out@.map_values(|x: FingerprintInput| x@) == assessed_inputs(iv, rv).take(i as int),
        decreases inputs.len() - i,
    {
        let input = &inputs[i];
        proof {
            assert(iv.take(i + 1).drop_last() =~= iv.take(i as int));
            assert(iv.take(i + 1).last() == input@);
        }
        let current: Option<String> = match &reads[i] {
            LocationRead::Read { unit, .. } => {
                if !crate::text::str_equal(unit.as_str(), input.recorded_input_fingerprint.as_str()) {
                    freshness = FreshnessWithinScope::Stale;
                    reason = "recorded claim input changed".to_owned();
                }
                Some(unit.clone())
            },
            LocationRead::Missing => {
                freshness = FreshnessWithinScope::Stale;
                reason = "recorded claim input unavailable".to_owned();
                None
            },
            LocationRead::Unverifiable => {
                if freshness != FreshnessWithinScope::Stale {
                    freshness = FreshnessWithinScope::Unknown;
                    reason = "recorded claim input could not be verified".to_owned();
                }
                None
            },
        };
        let item = FingerprintInput {
            path: input.path.clone(),
            selector: input.selector,
            input_fingerprint: current,
        };
        let ghost before = out@;
        out.push(item);
        proof {
            assert(out@.map_values(|x: FingerprintInput| x@) =~= before.map_values(
                |x: FingerprintInput| x@,
            ).push(item@));
            assert(out@.map_values(|x: FingerprintInput| x@) =~= assessed_inputs(iv, rv).take(i + 1));
        }
        i = i + 1;
    }
    assert(iv.take(inputs@.len() as int) =~= iv);
    assert(assessed_inputs(iv, rv).take(inputs@.len() as int) =~= assessed_inputs(iv, rv));
    (freshness, reason, out)
}

/// A claim's (or evidence's) verdict and reconciliation fingerprint at
/// `revision`, from what re-reading each input gave.
pub fn claim_inputs_verdict(revision: &str, inputs: &Vec<ClaimInput>, reads: &Vec<LocationRead>) -> (r: (
    FreshnessWithinScope,
    String,
    String,
))
    requires
        reads@.len() == inputs@.len(),
    ensures
        (r.0, r.1@) == assess_spec(
            inputs@.map_values(|x: ClaimInput| x@),
            reads@.map_values(|x: LocationRead| x@),
        ),
        r.2@ == hex_digest_spec(
            scoped_material(
                revision@,
                assessed_inputs(
                    inputs@.map_values(|x: ClaimInput| x@),
                    reads@.map_values(|x: LocationRead| x@),
                ),
            ),
        ),
{
    let (freshness, reason, fingerprint_inputs) = assess_claim_inputs(inputs, reads);
    let fingerprint = scoped_reconciliation_fingerprint(revision, &fingerprint_inputs);
    (freshness, reason, fingerprint)
}

// ---------------------------------------------------------------------------
// Selecting and fingerprinting an observed unit.
pub open spec fn range_outside_message(start: usize, end: usize, len: nat) -> Seq<char> {
    "byte range "@ + decimal(start as nat) + ":"@ + decimal(end as nat) + " is outside a "@ + decimal(
        len,
    ) + "-byte file"@
}

pub open spec fn range_unaligned_message(start: usize, end: usize) -> Seq<char> {
    "byte range "@ + decimal(start as nat) + ":"@ + decimal(end as nat)
        + " does not align to UTF-8 boundaries"@
}

/// The unit a selector picks out of a container, or the message of the
/// invalid-observation error selecting it raises.
pub open spec fn select_unit_spec(container: Seq<u8>, selector: ObservationSelector) -> Result<
    Seq<u8>,
    Seq<char>,
> {
    match selector {
        ObservationSelector::WholeFile => Ok(container),
        ObservationSelector::ByteRange { start, end } => if start > end || end > container.len() {
            Err(range_outside_message(start, end, container.len()))
        } else if !valid_utf8(container) {
            Err("source is not valid UTF-8"@)
        } else if !(is_char_boundary(container, start as int) && is_char_boundary(
            container,
            end as int,
        )) {
            Err(range_unaligned_message(start, end))
        } else {
            Ok(container.subrange(start as int, end as int))
        },
    }
}

/// Whether `index` is a character boundary of valid UTF-8 `b`.
fn boundary_exec(b: &[u8], index: usize) -> (r: bool)
    requires
        valid_utf8(b@),
        index <= b@.len(),
    ensures
        r == is_char_boundary(b@, index as int),
{
    broadcast use is_char_boundary_start_end_of_seq, is_char_boundary_iff_not_is_continuation_byte;

    if index == b.len() {
        proof {
            assert(is_char_boundary(b@, b@.len() as int));
        }
        true
    } else {
        let x = b[index];
        proof {
            assert(is_char_boundary(b@, index as int) <==> !is_continuation_byte(b@[index as int]));
        }
        !(0x80u8 <= x && x <= 0xbfu8)
    }
}

/// Select the observed unit of a container.
pub fn select_observation_unit(container: &[u8], selector: &ObservationSelector) -> (r: Result<
    Vec<u8>,
    WorkspaceError,
>)
    ensures
        match (r, select_unit_spec(container@, *selector)) {
            (Ok(u), Ok(s)) => u@ == s,
            (Err(WorkspaceError::InvalidObservation(m)), Err(s)) => m@ == s,
            _ => false,
        },
{
    proof {
        broadcast use vstd::slice::axiom_spec_len;
    }
    let n = container.len();
    match selector {
        ObservationSelector::WholeFile => Ok(vstd::slice::slice_to_vec(container)),
        ObservationSelector::ByteRange { start, end } => {
            let start = *start;
            let end = *end;
            if start > end || end > container.len() {
                let mut m = "byte range ".to_owned();
                push_decimal(&mut m, start as u64);
                m.append(":");
                push_decimal(&mut m, end as u64);
                m.append(" is outside a ");
                push_decimal(&mut m, container.len() as u64);
                m.append("-byte file");
                return Err(WorkspaceError::InvalidObservation(m));
            }
            if string_from_utf8(vstd::slice::slice_to_vec(container)).is_none() {
                return Err(WorkspaceError::InvalidObservation("source is not valid UTF-8".to_owned()));
            }
            if !(boundary_exec(container, start) && boundary_exec(container, end)) {
                let mut m = "byte range ".to_owned();
                push_decimal(&mut m, start as u64);
                m.append(":");
                push_decimal(&mut m, end as u64);
                m.append(" does not align to UTF-8 boundaries");
                return Err(WorkspaceError::InvalidObservation(m));
            }
            let mut u: Vec<u8> = Vec::new();
            let mut k = start;
            while k < end
                invariant
                    start <= k <= end <= container@.len(),
                    u@ == container@.subrange(start as int, k as int),
                decreases end - k,
            {
                u.push(container[k]);
                assert(u@ =~= container@.subrange(start as int, k + 1));
                k = k + 1;
            }
            Ok(u)
        },
    }
}

/// A normalized unit: raw bytes for `Raw`, else the canonical form when the
/// formatter produced one, falling back to the raw bytes.
pub open spec fn normalized_spec(unit: Seq<u8>, normalizer: Normalizer, canonical: Option<Seq<u8>>) -> Seq<
    u8,
> {
    match normalizer {
        Normalizer::Raw => unit,
        _ => match canonical {
            Some(c) => c,
            None => unit,
        },
    }
}

/// Unchanged raw bytes imply an unchanged canonical form, so the recorded
/// input fingerprint still stands.
pub open spec fn raw_fast_path(unit: Seq<u8>, recorded_raw: Option<Seq<char>>) -> bool {
    recorded_raw == Some(hex_digest_spec(unit))
}

pub open spec fn opt_view(s: Option<&str>) -> Option<Seq<char>> {
    match s {
        Some(x) => Some(x@),
        None => None,
    }
}

/// Whether fingerprinting this unit needs its formatter-canonical form.
pub fn needs_canonical_form(unit: &[u8], normalizer: Normalizer, recorded_raw: Option<&str>) -> (r: bool)
    ensures
        r == (!raw_fast_path(unit@, opt_view(recorded_raw)) && normalizer != Normalizer::Raw),
{
    if normalizer == Normalizer::Raw {
        return false;
    }
    match recorded_raw {
        Some(raw) => !crate::text::str_equal(raw, hex_digest(unit).as_str()),
        None => true,
    }
}

/// The current fingerprint of an observed unit: the recorded input
/// fingerprint when the raw bytes are unchanged, else the digest of its
/// normalized form.
pub fn unit_fingerprint(
    unit: &[u8],
    normalizer: Normalizer,
    recorded_raw: Option<&str>,
    recorded_input: &str,
    canonical: Option<&Vec<u8>>,
) -> (r: String)
    ensures
        r@ == if raw_fast_path(unit@, opt_view(recorded_raw)) {
            recorded_input@
        } else {
            hex_digest_spec(
                normalized_spec(
                    unit@,
                    normalizer,
                    match canonical {
                        Some(c) => Some(c@),
                        None => None,
                    },
                ),
            )
        },
{
    let raw = hex_digest(unit);
    match recorded_raw {
        Some(x) => {
            if crate::text::str_equal(x, raw.as_str()) {
                return recorded_input.to_owned();
            }
        },
        None => {},
    }
    match normalizer {
        Normalizer::Raw => raw,
        _ => match canonical {
            Some(c) => hex_digest(c.as_slice()),
            None => raw,
        },
    }
}

/// The fingerprints a capture records: the normalized input fingerprint,
/// the raw fingerprint whenever a normalizer applies, and the container's.
pub fn capture_fingerprints(
    unit: &[u8],
    container: &[u8],
    normalizer: Normalizer,
    canonical: Option<&Vec<u8>>,
) -> (r: (String, Option<String>, String))
    ensures
        r.0@ == hex_digest_spec(
            normalized_spec(
                unit@,
                normalizer,
                match canonical {
                    Some(c) => Some(c@),
                    None => None,
                },
            ),
        ),
        opt_str(r.1) == if normalizer == Normalizer::Raw {
            None
        } else {
            Some(hex_digest_spec(unit@))
        },
        r.2@ == hex_digest_spec(container@),
{
    let input = match normalizer {
        Normalizer::Raw => hex_digest(unit),
        _ => match canonical {
            Some(c) => hex_digest(c.as_slice()),
            None => hex_digest(unit),
        },
    };
    let raw = if normalizer == Normalizer::Raw {
        None
    } else {
        Some(hex_digest(unit))
    };
    (input, raw, hex_digest(container))
}

// ---------------------------------------------------------------------------
// Planning a read capture.
/// The first newline byte at or after `i`, or the end.
pub open spec fn next_newline(b: Seq<u8>, i: int) -> int
    decreases b.len() - i,
{
    if i < 0 || i >= b.len() {
        b.len() as int
    } else if b[i] == 10u8 {
        i
    } else {
        next_newline(b, i + 1)
    }
}

/// Where the `k`-th line (zero-indexed) of `b` begins, if `b` has one.
pub open spec fn line_start_opt(b: Seq<u8>, k: nat) -> Option<int>
    decreases k,
{
    if k == 0 {
        Some(0)
    } else {
        match line_start_opt(b, (k - 1) as nat) {
            Some(p) => {
                let q = next_newline(b, p);
                if q < b.len() {
                    Some(q + 1)
                } else {
                    None
                }
            },
            None => None,
        }
    }
}

/// A read capture's byte selector and the raw fingerprint of its unit.
pub struct ReadSelectionPlan {
    pub selector: ObservationSelector,
    pub expected_raw_fingerprint: String,
}

/// The byte range a one-indexed line window selects, or why it cannot: the
/// selected lines (without the newline after the last one) must be exactly
/// what the model saw.
pub open spec fn read_plan_spec(b: Seq<u8>, offset: Option<usize>, limit: Option<usize>, visible: Seq<u8>) -> Result<
    (ObservationSelector, Seq<u8>),
    Seq<char>,
> {
    let first = match offset {
        Some(o) => (o - 1) as nat,
        None => 0nat,
    };
    match line_start_opt(b, first) {
        None => Err("read starts beyond the current file"@),
        Some(start) => {
            let end = match limit {
                None => b.len() as int,
                Some(l) => if l == 0 {
                    start
                } else {
                    match line_start_opt(b, (first + l) as nat) {
                        Some(p) => p - 1,
                        None => b.len() as int,
                    }
                },
            };
            let selected = b.subrange(start, end);
            if visible != selected {
                Err("model-visible read result does not match the current file selection"@)
            } else {
                let whole = offset is None && limit is None && start == 0 && end == b.len();
                Ok(
                    (
                        if whole {
                            ObservationSelector::WholeFile
                        } else {
                            ObservationSelector::ByteRange { start: start as usize, end: end as usize }
                        },
                        selected,
                    ),
                )
            }
        },
    }
}

proof fn lemma_next_newline_bounds(b: Seq<u8>, i: int)
    requires
        0 <= i <= b.len(),
    ensures
        i <= next_newline(b, i) <= b.len(),
        next_newline(b, i) < b.len() ==> b[next_newline(b, i)] == 10u8,
    decreases b.len() - i,
{
    if i < b.len() && b[i] != 10u8 {
        lemma_next_newline_bounds(b, i + 1);
    }
}

proof fn lemma_line_start_bounds(b: Seq<u8>, k: nat)
    ensures
        line_start_opt(b, k) matches Some(p) ==> 0 <= p <= b.len(),
    decreases k,
{
    if k > 0 {
        lemma_line_start_bounds(b, (k - 1) as nat);
        if let Some(p) = line_start_opt(b, (k - 1) as nat) {
            lemma_next_newline_bounds(b, p);
        }
    }
}

fn next_newline_exec(b: &[u8], i: usize) -> (r: usize)
    requires
        i <= b@.len(),
    ensures
        r as int == next_newline(b@, i as int),
{
    let mut j = i;
    while j < b.len() && b[j] != 10u8
        invariant
            i <= j <= b@.len(),
            next_newline(b@, i as int) == next_newline(b@, j as int),
        decreases b.len() - j,
    {
        j = j + 1;
    }
    j
}

/// Advance from the start of line `from` (at `pos`) to the start of line
/// `to`.
fn advance_lines(b: &[u8], pos: usize, from: usize, to: usize) -> (r: Option<usize>)
    requires
        from <= to,
        line_start_opt(b@, from as nat) == Some(pos as int),
    ensures
        match r {
            Some(p) => line_start_opt(b@, to as nat) == Some(p as int),
            None => line_start_opt(b@, to as nat) is None,
        },
{
    let mut p = pos;
    let mut k = from;
    proof {
        lemma_line_start_bounds(b@, from as nat);
    }
    while k < to
        invariant
            from <= k <= to,
            line_start_opt(b@, k as nat) == Some(p as int),
            p <= b@.len(),
        decreases to - k,
    {
        let q = next_newline_exec(b, p);
        if q >= b.len() {
            proof {
                lemma_none_stays_none(b@, (k + 1) as nat, to as nat);
            }
            return None;
        }
        p = q + 1;
        k = k + 1;
    }
    Some(p)
}

proof fn lemma_none_stays_none(b: Seq<u8>, k: nat, m: nat)
    requires
        k <= m,
        line_start_opt(b, k) is None,
    ensures
        line_start_opt(b, m) is None,
    decreases m - k,
{
    if k < m {
        lemma_none_stays_none(b, k, (m - 1) as nat);
    }
}

fn bytes_equal_range(a: &[u8], b: &[u8], start: usize, end: usize) -> (r: bool)
    requires
        start <= end <= b@.len(),
    ensures
        r == (a@ == b@.subrange(start as int, end as int)),
{
    if a.len() != end - start {
        return false;
    }
    let mut k: usize = 0;
    while k < a.len()
        invariant
            k <= a@.len(),
            a@.len() == end - start,
            start <= end <= b@.len(),
            forall|m: int| 0 <= m < k ==> a@[m] == b@[start + m],
        decreases a.len() - k,
    {
        if a[k] != b[start + k] {
            assert(a@[k as int] != b@.subrange(start as int, end as int)[k as int]);
            return false;
        }
        k = k + 1;
    }
    assert(a@ =~= b@.subrange(start as int, end as int));
    true
}

/// Map a read tool's one-indexed line window onto a byte range and check
/// that the model saw exactly the current selection.
pub fn plan_read_selection(
    file_text: &str,
    offset: Option<usize>,
    limit: Option<usize>,
    visible: &str,
) -> (r: Result<ReadSelectionPlan, &'static str>)
    requires
        offset != Some(0usize),
        offset matches Some(o) && limit matches Some(l) ==> o - 1 + l <= usize::MAX,
    ensures
        match (r, read_plan_spec(utf8(file_text@), offset, limit, utf8(visible@))) {
            (Ok(plan), Ok((selector, selected))) => plan.selector == selector
                && plan.expected_raw_fingerprint@ == hex_digest_spec(selected),
            (Err(m), Err(s)) => m@ == s,
            _ => false,
        },
{
    let b = file_text.as_bytes();
    let first: usize = match offset {
        Some(o) => o - 1,
        None => 0,
    };
    let start = match advance_lines(b, 0, 0, first) {
        None => {
            return Err("read starts beyond the current file");
        },
        Some(p) => p,
    };
    proof {
        lemma_line_start_bounds(b@, first as nat);
    }
    let end: usize = match limit {
        None => b.len(),
        Some(l) => if l == 0 {
            start
        } else {
            match advance_lines(b, start, first, first + l) {
                Some(p) => {
                    proof {
                        lemma_line_start_bounds(b@, (first + l) as nat);
                        lemma_start_after(b@, first as nat, (first + l) as nat);
                    }
                    p - 1
                },
                None => b.len(),
            }
        },
    };
    let v = visible.as_bytes();
    if !bytes_equal_range(v, b, start, end) {
        return Err("model-visible read result does not match the current file selection");
    }
    let whole = offset.is_none() && limit.is_none() && start == 0 && end == b.len();
    let selector = if whole {
        ObservationSelector::WholeFile
    } else {
        ObservationSelector::ByteRange { start, end }
    };
    Ok(ReadSelectionPlan { selector, expected_raw_fingerprint: hex_digest(v) })
}

/// A later line starts after the newline that ends an earlier one.
proof fn lemma_start_after(b: Seq<u8>, k: nat, m: nat)
    requires
        k < m,
        line_start_opt(b, m) is Some,
    ensures
        line_start_opt(b, k) is Some,
        line_start_opt(b, k)->0 < line_start_opt(b, m)->0,
    decreases m - k,
{
    lemma_line_start_bounds(b, (m - 1) as nat);
    if line_start_opt(b, (m - 1) as nat) is None {
        assert(line_start_opt(b, m) is None);
    }
    let p = line_start_opt(b, (m - 1) as nat)->0;
    lemma_next_newline_bounds(b, p);
    if k < m - 1 {
        lemma_start_after(b, k, (m - 1) as nat);
    }
}

/// A copy of a byte vector.
pub fn copy_bytes(b: &Vec<u8>) -> (r: Vec<u8>)
    ensures
        r@ == b@,
{
    let mut r: Vec<u8> = Vec::new();
    crate::text::append_bytes(&mut r, b);
    assert(r@ =~= b@);
    r
}

} // verus!

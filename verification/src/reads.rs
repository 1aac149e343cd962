//! Auto-capture of a read tool's result: a read becomes an observation only
//! when what the model saw is exactly the current selection of the file;
//! otherwise the capture is skipped with its reason, which is a first-class
//! outcome rather than an error.

use vstd::prelude::*;
use crate::digest::hex_digest_spec;
use crate::error::WorkspaceError;
use crate::model::{
    Normalizer, ObservationCapture, ObservationCaptureOptions, ReadCaptureOutcome,
    ReadCaptureRequest,
};
use crate::paths::{is_relative_path, is_sensitive_path_spec, is_sensitive_repository_path, validate_relative_path};
use crate::reconcile::{plan_read_selection, read_plan_spec};
use crate::text::{string_from_utf8, utf8};
use crate::workspace::{file_capture_outcome, Workspace};

verus! {

/// A skipped capture with its reason.
pub fn skip(reason: &str) -> (r: ReadCaptureOutcome)
    ensures
        r matches ReadCaptureOutcome::Skipped { reason: m } && m@ == reason@,
{
    ReadCaptureOutcome::Skipped { reason: reason.to_owned() }
}

/// Why a read is skipped before its file is read, if it is: a truncated
/// result, a non-positive offset or limit, or a sensitive path.
pub open spec fn early_skip(path: Seq<char>, request: ReadCaptureRequest) -> Option<Seq<char>> {
    if request.truncated {
        Some("native read result was byte/line truncated"@)
    } else if request.offset == Some(0usize) {
        Some("read offset is not a positive integer"@)
    } else if request.limit == Some(0usize) {
        Some("read limit is not a positive integer"@)
    } else if is_sensitive_path_spec(path) {
        Some("path matches a sensitive-file pattern"@)
    } else {
        None
    }
}

/// A read window the planner can take without overflow.
pub open spec fn window_fits(request: ReadCaptureRequest) -> bool {
    request.offset matches Some(o) && request.limit matches Some(l) ==> o - 1 + l <= usize::MAX
}

/// Check a read before its file is read: an invalid path is an error, an
/// early skip is its reason, and `None` says the file is to be read.
pub fn read_capture_skip(path: &str, request: &ReadCaptureRequest) -> (r: Result<Option<String>, WorkspaceError>)
    ensures
        !is_relative_path(path@) ==> (r matches Err(WorkspaceError::InvalidPath(m)) && m@ == path@),
        is_relative_path(path@) ==> match early_skip(path@, *request) {
            Some(m) => r matches Ok(Some(s)) && s@ == m,
            None => r matches Ok(None),
        },
{
    let path = match validate_relative_path(path) {
        Ok(p) => p,
        Err(e) => return Err(e),
    };
    if request.truncated {
        return Ok(Some("native read result was byte/line truncated".to_owned()));
    }
    if request.offset == Some(0usize) {
        return Ok(Some("read offset is not a positive integer".to_owned()));
    }
    if request.limit == Some(0usize) {
        return Ok(Some("read limit is not a positive integer".to_owned()));
    }
    if is_sensitive_repository_path(path.as_str()) {
        return Ok(Some("path matches a sensitive-file pattern".to_owned()));
    }
    Ok(None)
}

/// The capture options of a read of `container`, or the reason it is
/// skipped: the file must be UTF-8 and the model must have seen exactly the
/// current selection. The model-visible byte count defaults to the bytes of
/// the visible text.
pub open spec fn read_options_spec(
    request: ReadCaptureRequest,
    container: Seq<u8>,
    normalizer: Normalizer,
) -> Result<(crate::model::ObservationSelector, Seq<char>, Option<usize>), Seq<char>> {
    if !vstd::utf8::valid_utf8(container) {
        Err("file is not valid UTF-8"@)
    } else {
        match read_plan_spec(container, request.offset, request.limit, utf8(request.model_visible_text@)) {
            Err(m) => Err(m),
            Ok((selector, selected)) => Ok(
                (
                    selector,
                    hex_digest_spec(selected),
                    Some(
                        match request.model_visible_bytes {
                            Some(n) => n,
                            None => utf8(request.model_visible_text@).len() as usize,
                        },
                    ),
                ),
            ),
        }
    }
}

/// Whether `options` are the capture options `read_options_spec` gives.
pub open spec fn read_options_hold(
    request: ReadCaptureRequest,
    container: Seq<u8>,
    normalizer: Normalizer,
    options: ObservationCaptureOptions,
) -> bool {
    read_options_spec(request, container, normalizer) matches Ok((selector, fp, visible)) && options.selector
        == selector && options.normalizer == normalizer && !options.retain_native_payload
        && options.model_visible_bytes == visible && crate::model::opt_str(
        options.expected_raw_fingerprint,
    ) == Some(fp)
}

/// The capture options of a read of `container` with the path's normalizer,
/// or the reason the capture is skipped.
pub fn read_capture_options(request: &ReadCaptureRequest, container: &[u8], normalizer: Normalizer) -> (r: Result<
    ObservationCaptureOptions,
    String,
>)
    requires
        request.offset != Some(0usize),
        window_fits(*request),
    ensures
        match read_options_spec(*request, container@, normalizer) {
            Err(m) => r matches Err(s) && s@ == m,
            Ok(_) => r matches Ok(o) && read_options_hold(*request, container@, normalizer, o),
        },
{
    let text = match string_from_utf8(vstd::slice::slice_to_vec(container)) {
        Some(t) => t,
        None => return Err("file is not valid UTF-8".to_owned()),
    };
    proof {
        vstd::utf8::encode_utf8_decode_utf8(text@);
    }
    let plan = match plan_read_selection(
        text.as_str(),
        request.offset,
        request.limit,
        request.model_visible_text.as_str(),
    ) {
        Ok(p) => p,
        Err(m) => return Err(m.to_owned()),
    };
    let visible = match request.model_visible_bytes {
        Some(n) => n,
        None => crate::text::utf8_len(request.model_visible_text.as_str()),
    };
    Ok(
        ObservationCaptureOptions {
            selector: plan.selector,
            normalizer,
            retain_native_payload: false,
            model_visible_bytes: Some(visible),
            expected_raw_fingerprint: Some(plan.expected_raw_fingerprint),
        },
    )
}

/// A read capture's outcome as a file capture's result; a skip reads as the
/// invalid observation it stands for.
pub open spec fn as_capture(r: Result<ReadCaptureOutcome, WorkspaceError>) -> Result<ObservationCapture, WorkspaceError> {
    match r {
        Ok(ReadCaptureOutcome::Captured(c)) => Ok(*c),
        Ok(ReadCaptureOutcome::Skipped { reason }) => Err(WorkspaceError::InvalidObservation(reason)),
        Err(e) => Err(e),
    }
}

impl Workspace {
    /// Capture a read tool's result as an observation of `path`, or skip it
    /// with the reason: `container` is the file as read, `normalizer` the
    /// path's normalizer, `canonical` the normalizer's canonical form of the
    /// selected unit when it produced one.
    pub fn capture_read_observation(
        &mut self,
        path: &str,
        provider: String,
        request: &ReadCaptureRequest,
        container: &[u8],
        normalizer: Normalizer,
        canonical: Option<&Vec<u8>>,
        git_revision: String,
    ) -> (r: Result<ReadCaptureOutcome, WorkspaceError>)
        requires
            old(self).wf(),
            window_fits(*request),
        ensures
            final(self).wf(),
            !is_relative_path(path@) ==> final(self).records() == old(self).records() && (r matches Err(
                WorkspaceError::InvalidPath(m),
            ) && m@ == path@),
            is_relative_path(path@) && early_skip(path@, *request) is Some ==> final(self).records()
                == old(self).records() && (r matches Ok(ReadCaptureOutcome::Skipped { reason: m }) && m@
                == early_skip(path@, *request)->0),
            is_relative_path(path@) && early_skip(path@, *request) is None && read_options_spec(
                *request,
                container@,
                normalizer,
            ) is Err ==> final(self).records() == old(self).records() && (r matches Ok(
                ReadCaptureOutcome::Skipped { reason: m },
            ) && m@ == read_options_spec(*request, container@, normalizer)->Err_0),
            is_relative_path(path@) && early_skip(path@, *request) is None && read_options_spec(
                *request,
                container@,
                normalizer,
            ) is Ok ==> exists|options: ObservationCaptureOptions|
                #[trigger] read_options_hold(*request, container@, normalizer, options)
                    && file_capture_outcome(
                    *old(self),
                    *final(self),
                    path,
                    provider,
                    options,
                    container,
                    canonical,
                    git_revision,
                    None,
                    as_capture(r),
                ) && !(r matches Ok(ReadCaptureOutcome::Skipped { .. })),
    {
        match read_capture_skip(path, request) {
            Err(e) => return Err(e),
            Ok(Some(reason)) => return Ok(ReadCaptureOutcome::Skipped { reason }),
            Ok(None) => {},
        }
        let options = match read_capture_options(request, container, normalizer) {
            Ok(o) => o,
            Err(reason) => return Ok(ReadCaptureOutcome::Skipped { reason }),
        };
        let ghost o2 = options;
        match self.capture_file_observation(path, provider, options, container, canonical, git_revision, None) {
            Ok(c) => {
                let r = Ok(ReadCaptureOutcome::Captured(Box::new(c)));
                assert(read_options_hold(*request, container@, normalizer, o2));
                r
            },
            Err(e) => {
                assert(read_options_hold(*request, container@, normalizer, o2));
                Err(e)
            },
        }
    }
}

} // verus!

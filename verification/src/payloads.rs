//! Revealing a retained native payload: the bytes an observation or a finding
//! was recorded with, read back from the content-addressed store and checked
//! against the digest the log holds.

use vstd::prelude::*;
use crate::digest::{hex_digest, hex_digest_spec, is_sha256_hex, is_sha256_hex_spec};
use crate::error::WorkspaceError;
use crate::model::{RevealedFinding, RevealedObservation};
use crate::paths::{components, path_components};
use crate::text::{str_equal, string_from_utf8, utf8};
use crate::workspace::{id_message, id_message_exec, Workspace};

verus! {

/// Where a payload with digest `fingerprint` is stored, relative to the
/// workspace root.
pub open spec fn payload_path(fingerprint: Seq<char>) -> Seq<char> {
    "payloads/"@ + fingerprint
}

/// What stands at a path of the payload store.
pub enum StoredEntry {
    Missing,
    /// Something other than what belongs there (a link, a directory for a
    /// file, a file for the directory).
    Irregular,
    /// A regular file, with its bytes.
    Regular { bytes: Vec<u8> },
}

/// Whether persisting a payload under its digest writes it (`true`) or
/// finds it already stored (`false`), or why the store refuses it.
pub open spec fn payload_store_plan_spec(
    directory_irregular: bool,
    existing: StoredEntry,
    fingerprint: Seq<char>,
) -> Result<bool, (bool, Seq<char>)> {
    if directory_irregular {
        Err((false, "payload storage is not a regular directory"@))
    } else {
        match existing {
            StoredEntry::Missing => Ok(true),
            StoredEntry::Irregular => Err((true, "native payload is not a regular file for "@ + fingerprint)),
            StoredEntry::Regular { bytes } => if hex_digest_spec(bytes@) == fingerprint {
                Ok(false)
            } else {
                Err((true, "native payload collision for "@ + fingerprint))
            },
        }
    }
}

/// Decide how a payload with digest `fingerprint` is persisted, given
/// whether the store directory is irregular and what stands at the
/// payload's own path: write it, keep the identical copy, or refuse (an
/// irregular directory is an invalid observation; an irregular or
/// different file at the path is a corrupt store).
pub fn payload_store_plan(directory_irregular: bool, existing: &StoredEntry, fingerprint: &str) -> (r: Result<
    bool,
    WorkspaceError,
>)
    ensures
        match payload_store_plan_spec(directory_irregular, *existing, fingerprint@) {
            Ok(b) => r == Ok::<bool, WorkspaceError>(b),
            Err((false, m)) => r matches Err(WorkspaceError::InvalidObservation(e)) && e@ == m,
            Err((true, m)) => r matches Err(WorkspaceError::CorruptLog(e)) && e@ == m,
        },
{
    if directory_irregular {
        return Err(WorkspaceError::InvalidObservation("payload storage is not a regular directory".to_owned()));
    }
    match existing {
        StoredEntry::Missing => Ok(true),
        StoredEntry::Irregular => {
            let mut m = "native payload is not a regular file for ".to_owned();
            m.append(fingerprint);
            Err(WorkspaceError::CorruptLog(m))
        },
        StoredEntry::Regular { bytes } => {
            let digest = hex_digest(bytes.as_slice());
            if str_equal(digest.as_str(), fingerprint) {
                Ok(false)
            } else {
                let mut m = "native payload collision for ".to_owned();
                m.append(fingerprint);
                Err(WorkspaceError::CorruptLog(m))
            }
        },
    }
}

/// A retained payload as read from the store: whether the stored entry is a
/// symbolic link, and its bytes.
pub struct RetainedPayload {
    pub is_symlink: bool,
    pub bytes: Vec<u8>,
}

fn payload_path_exec(fingerprint: &str) -> (r: String)
    ensures
        r@ == payload_path(fingerprint@),
{
    let mut p = String::new();
    p.append("payloads/");
    p.append(fingerprint);
    p
}

fn same_components(a: &str, b: &str) -> (r: bool)
    ensures
        r == (components(a@) == components(b@)),
{
    let ca = path_components(a);
    let cb = path_components(b);
    let ghost va = components(a@);
    let ghost vb = components(b@);
    assert(va.len() == ca@.len() && vb.len() == cb@.len());
    if ca.len() != cb.len() {
        return false;
    }
    let mut i: usize = 0;
    while i < ca.len()
        invariant
            i <= ca@.len(),
            ca@.len() == cb@.len(),
            va == components(a@),
            vb == components(b@),
            ca@.map_values(|c: Vec<char>| c@) == va,
            cb@.map_values(|c: Vec<char>| c@) == vb,
            va.len() == ca@.len() && vb.len() == cb@.len(),
            forall|k: int| 0 <= k < i ==> va[k] == vb[k],
        decreases ca@.len() - i,
    {
        let x = &ca[i];
        let y = &cb[i];
        assert(va[i as int] == x@ && vb[i as int] == y@);
        if x.len() != y.len() {
            assert(va[i as int].len() != vb[i as int].len());
            return false;
        }
        let mut j: usize = 0;
        while j < x.len()
            invariant
                j <= x@.len(),
                x@.len() == y@.len(),
                va == components(a@),
                vb == components(b@),
                i < va.len() && i < vb.len(),
                va[i as int] == x@ && vb[i as int] == y@,
                forall|k: int| 0 <= k < j ==> x@[k] == y@[k],
            decreases x@.len() - j,
        {
            if x[j] != y[j] {
                assert(va[i as int][j as int] != vb[i as int][j as int]);
                return false;
            }
            j = j + 1;
        }
        assert(x@ =~= y@);
        i = i + 1;
    }
    assert(va =~= vb);
    true
}

/// Why a stored payload cannot be located, if it cannot: the reference must
/// name the store entry of the digest, and the digest must be a SHA-256 hex
/// digest. `what` names the owner in messages.
pub open spec fn reference_refusal(
    fingerprint: Seq<char>,
    reference: Seq<char>,
    what: Seq<char>,
    id: u64,
    digest_message: Seq<char>,
) -> Option<Seq<char>> {
    if !is_sha256_hex_spec(fingerprint) {
        Some(id_message(digest_message + what, id, Seq::empty()))
    } else if components(reference) != components(payload_path(fingerprint)) {
        Some(id_message("invalid native payload reference for "@ + what, id, Seq::empty()))
    } else {
        None
    }
}

/// Why read bytes cannot be revealed, if they cannot.
pub open spec fn payload_refusal(
    fingerprint: Seq<char>,
    payload: RetainedPayloadView,
    what: Seq<char>,
    id: u64,
) -> Option<Seq<char>> {
    if payload.is_symlink {
        Some(id_message("native payload is a symlink for "@ + what, id, Seq::empty()))
    } else if hex_digest_spec(payload.bytes) != fingerprint {
        Some(id_message("native payload fingerprint mismatch for "@ + what, id, Seq::empty()))
    } else {
        None
    }
}

pub struct RetainedPayloadView {
    pub is_symlink: bool,
    pub bytes: Seq<u8>,
}

impl View for RetainedPayload {
    type V = RetainedPayloadView;

    open spec fn view(&self) -> RetainedPayloadView {
        RetainedPayloadView { is_symlink: self.is_symlink, bytes: self.bytes@ }
    }
}

fn reference_check(
    fingerprint: &str,
    reference: &str,
    what: &str,
    id: u64,
    digest_message: &str,
) -> (r: Result<String, String>)
    ensures
        match reference_refusal(fingerprint@, reference@, what@, id, digest_message@) {
            Some(m) => r matches Err(e) && e@ == m,
            None => r matches Ok(p) && p@ == payload_path(fingerprint@),
        },
{
    if !is_sha256_hex(fingerprint) {
        let mut prefix = digest_message.to_owned();
        prefix.append(what);
        proof {
            reveal_strlit("");
            assert(""@ =~= Seq::<char>::empty());
        }
        return Err(id_message_exec(prefix.as_str(), id, ""));
    }
    let expected = payload_path_exec(fingerprint);
    if !same_components(reference, expected.as_str()) {
        let mut prefix = "invalid native payload reference for ".to_owned();
        prefix.append(what);
        proof {
            reveal_strlit("");
            assert(""@ =~= Seq::<char>::empty());
        }
        return Err(id_message_exec(prefix.as_str(), id, ""));
    }
    Ok(expected)
}

fn payload_check(fingerprint: &str, payload: &RetainedPayload, what: &str, id: u64) -> (r: Result<
    (),
    String,
>)
    ensures
        match payload_refusal(fingerprint@, payload@, what@, id) {
            Some(m) => r matches Err(e) && e@ == m,
            None => r is Ok,
        },
{
    if payload.is_symlink {
        let mut prefix = "native payload is a symlink for ".to_owned();
        prefix.append(what);
        proof {
            reveal_strlit("");
            assert(""@ =~= Seq::<char>::empty());
        }
        return Err(id_message_exec(prefix.as_str(), id, ""));
    }
    let digest = hex_digest(payload.bytes.as_slice());
    if !str_equal(digest.as_str(), fingerprint) {
        let mut prefix = "native payload fingerprint mismatch for ".to_owned();
        prefix.append(what);
        proof {
            reveal_strlit("");
            assert(""@ =~= Seq::<char>::empty());
        }
        return Err(id_message_exec(prefix.as_str(), id, ""));
    }
    Ok(())
}

impl Workspace {
    /// Where the native payload of an observation is stored, relative to the
    /// workspace root; or why it cannot be revealed.
    pub fn observation_payload_path(&self, observation_id: u64) -> (r: Result<String, WorkspaceError>)
        requires
            self.wf(),
        ensures
            match self.projection().observations.get(observation_id) {
                None => r == Err::<String, WorkspaceError>(WorkspaceError::ObservationNotFound(observation_id)),
                Some(o) => match o.native_payload_reference {
                    None => r matches Err(WorkspaceError::InvalidObservation(m))
                        && m@ == "native payload was not retained for this legacy observation"@,
                    Some(reference) => match reference_refusal(
                        o.observed_container_fingerprint,
                        reference,
                        "observation "@,
                        observation_id,
                        "invalid container fingerprint for "@,
                    ) {
                        Some(m) => r matches Err(WorkspaceError::CorruptLog(e)) && e@ == m,
                        None => r matches Ok(p) && p@ == payload_path(o.observed_container_fingerprint),
                    },
                },
            },
    {
        let o = match self.observation_at(observation_id) {
            Some(o) => o,
            None => return Err(WorkspaceError::ObservationNotFound(observation_id)),
        };
        let reference = match &o.native_payload_reference {
            Some(r) => r,
            None => {
                return Err(
                    WorkspaceError::InvalidObservation(
                        "native payload was not retained for this legacy observation".to_owned(),
                    ),
                )
            },
        };
        match reference_check(
            o.observed_container_fingerprint.as_str(),
            reference.as_str(),
            "observation ",
            observation_id,
            "invalid container fingerprint for ",
        ) {
            Ok(p) => Ok(p),
            Err(m) => Err(WorkspaceError::CorruptLog(m)),
        }
    }

    /// Reveal the retained source of an observation from the payload read at
    /// its store path: the bytes must be a regular file whose digest is the
    /// recorded container fingerprint, and valid UTF-8.
    pub fn reveal_observation(&self, observation_id: u64, payload: &RetainedPayload) -> (r: Result<
        RevealedObservation,
        WorkspaceError,
    >)
        requires
            self.wf(),
        ensures
            r matches Ok(rev) ==> hex_digest_spec(utf8(rev.content@)) == rev.observed_container_fingerprint@,
            match self.projection().observations.get(observation_id) {
                None => r == Err::<RevealedObservation, WorkspaceError>(WorkspaceError::ObservationNotFound(observation_id)),
                Some(o) => match o.native_payload_reference {
                    None => r matches Err(WorkspaceError::InvalidObservation(m))
                        && m@ == "native payload was not retained for this legacy observation"@,
                    Some(reference) => match reference_refusal(
                        o.observed_container_fingerprint,
                        reference,
                        "observation "@,
                        observation_id,
                        "invalid container fingerprint for "@,
                    ) {
                        Some(m) => r matches Err(WorkspaceError::CorruptLog(e)) && e@ == m,
                        None => match payload_refusal(
                            o.observed_container_fingerprint,
                            payload@,
                            "observation "@,
                            observation_id,
                        ) {
                            Some(m) => r matches Err(WorkspaceError::CorruptLog(e)) && e@ == m,
                            None => if !vstd::utf8::valid_utf8(payload.bytes@) {
                                r matches Err(WorkspaceError::InvalidObservation(m))
                                    && m@ == "retained source is not valid UTF-8"@
                            } else {
                                r matches Ok(rev) && rev.observation_id == observation_id
                                    && rev.path@ == o.path && rev.provider@ == o.provider
                                    && rev.observed_revision@ == o.observed_revision
                                    && rev.observed_container_fingerprint@
                                    == o.observed_container_fingerprint && utf8(rev.content@)
                                    == payload.bytes@ && rev.ingested_bytes == payload.bytes@.len()
                            },
                        },
                    },
                },
            },
    {
        let o = match self.observation_at(observation_id) {
            Some(o) => o,
            None => return Err(WorkspaceError::ObservationNotFound(observation_id)),
        };
        let reference = match &o.native_payload_reference {
            Some(r) => r,
            None => {
                return Err(
                    WorkspaceError::InvalidObservation(
                        "native payload was not retained for this legacy observation".to_owned(),
                    ),
                )
            },
        };
        match reference_check(
            o.observed_container_fingerprint.as_str(),
            reference.as_str(),
            "observation ",
            observation_id,
            "invalid container fingerprint for ",
        ) {
            Ok(_) => {},
            Err(m) => return Err(WorkspaceError::CorruptLog(m)),
        }
        match payload_check(o.observed_container_fingerprint.as_str(), payload, "observation ", observation_id) {
            Ok(()) => {},
            Err(m) => return Err(WorkspaceError::CorruptLog(m)),
        }
        let ingested = payload.bytes.len();
        match string_from_utf8(payload.bytes.clone()) {
            Some(content) => Ok(
                RevealedObservation {
                    observation_id,
                    path: o.path.clone(),
                    provider: o.provider.clone(),
                    observed_revision: o.observed_revision.clone(),
                    observed_container_fingerprint: o.observed_container_fingerprint.clone(),
                    content,
                    ingested_bytes: ingested,
                },
            ),
            None => Err(WorkspaceError::InvalidObservation("retained source is not valid UTF-8".to_owned())),
        }
    }

    /// Where the native payload of a finding is stored, relative to the
    /// workspace root; or why it cannot be revealed.
    pub fn finding_payload_path(&self, finding_id: u64) -> (r: Result<String, WorkspaceError>)
        requires
            self.wf(),
        ensures
            match self.projection().findings.get(finding_id) {
                None => r == Err::<String, WorkspaceError>(WorkspaceError::FindingNotFound(finding_id)),
                Some(f) => match (f.native_payload_fingerprint, f.native_payload_reference) {
                    (Some(fp), Some(reference)) => match reference_refusal(
                        fp,
                        reference,
                        "finding "@,
                        finding_id,
                        "invalid native payload fingerprint for "@,
                    ) {
                        Some(m) => r matches Err(WorkspaceError::CorruptLog(e)) && e@ == m,
                        None => r matches Ok(p) && p@ == payload_path(fp),
                    },
                    _ => r matches Err(WorkspaceError::InvalidFinding(m))
                        && m@ == "no native payload was retained for this finding"@,
                },
            },
    {
        let f = match self.finding_at(finding_id) {
            Some(f) => f,
            None => return Err(WorkspaceError::FindingNotFound(finding_id)),
        };
        match (&f.native_payload_fingerprint, &f.native_payload_reference) {
            (Some(fp), Some(reference)) => match reference_check(
                fp.as_str(),
                reference.as_str(),
                "finding ",
                finding_id,
                "invalid native payload fingerprint for ",
            ) {
                Ok(p) => Ok(p),
                Err(m) => Err(WorkspaceError::CorruptLog(m)),
            },
            _ => Err(WorkspaceError::InvalidFinding("no native payload was retained for this finding".to_owned())),
        }
    }

    /// Reveal the provider's own raw output retained for a finding, from the
    /// payload read at its store path.
    pub fn reveal_finding(&self, finding_id: u64, payload: &RetainedPayload) -> (r: Result<
        RevealedFinding,
        WorkspaceError,
    >)
        requires
            self.wf(),
        ensures
            r matches Ok(rev) ==> hex_digest_spec(utf8(rev.content@)) == rev.native_payload_fingerprint@,
            match self.projection().findings.get(finding_id) {
                None => r == Err::<RevealedFinding, WorkspaceError>(WorkspaceError::FindingNotFound(finding_id)),
                Some(f) => match (f.native_payload_fingerprint, f.native_payload_reference) {
                    (Some(fp), Some(reference)) => match reference_refusal(
                        fp,
                        reference,
                        "finding "@,
                        finding_id,
                        "invalid native payload fingerprint for "@,
                    ) {
                        Some(m) => r matches Err(WorkspaceError::CorruptLog(e)) && e@ == m,
                        None => match payload_refusal(fp, payload@, "finding "@, finding_id) {
                            Some(m) => r matches Err(WorkspaceError::CorruptLog(e)) && e@ == m,
                            None => if !vstd::utf8::valid_utf8(payload.bytes@) {
                                r matches Err(WorkspaceError::InvalidFinding(m))
                                    && m@ == "retained native payload is not valid UTF-8"@
                            } else {
                                r matches Ok(rev) && rev.finding_id == finding_id && rev.provider@
                                    == f.provider && rev.path@ == f.path && rev.observed_revision@
                                    == f.observed_revision && rev.native_payload_fingerprint@ == fp
                                    && utf8(rev.content@) == payload.bytes@
                            },
                        },
                    },
                    _ => r matches Err(WorkspaceError::InvalidFinding(m))
                        && m@ == "no native payload was retained for this finding"@,
                },
            },
    {
        let f = match self.finding_at(finding_id) {
            Some(f) => f,
            None => return Err(WorkspaceError::FindingNotFound(finding_id)),
        };
        let (fp, reference) = match (&f.native_payload_fingerprint, &f.native_payload_reference) {
            (Some(fp), Some(reference)) => (fp, reference),
            _ => {
                return Err(
                    WorkspaceError::InvalidFinding("no native payload was retained for this finding".to_owned()),
                )
            },
        };
        match reference_check(
            fp.as_str(),
            reference.as_str(),
            "finding ",
            finding_id,
            "invalid native payload fingerprint for ",
        ) {
            Ok(_) => {},
            Err(m) => return Err(WorkspaceError::CorruptLog(m)),
        }
        match payload_check(fp.as_str(), payload, "finding ", finding_id) {
            Ok(()) => {},
            Err(m) => return Err(WorkspaceError::CorruptLog(m)),
        }
        match string_from_utf8(payload.bytes.clone()) {
            Some(content) => Ok(
                RevealedFinding {
                    finding_id,
                    provider: f.provider.clone(),
                    path: f.path.clone(),
                    observed_revision: f.observed_revision.clone(),
                    native_payload_fingerprint: fp.clone(),
                    content,
                },
            ),
            None => Err(
                WorkspaceError::InvalidFinding("retained native payload is not valid UTF-8".to_owned()),
            ),
        }
    }
}

} // verus!

//! The errors the workspace reports.

use vstd::prelude::*;
use vstd::string::*;
use crate::text::{debug_str, debug_str_spec, decimal, push_decimal};

verus! {

pub enum WorkspaceError {
    InvalidPath(String),
    InvalidObjective(String),
    InvalidWorkingSet(String),
    Git(String),
    ObservationNotFound(u64),
    InvalidObservation(String),
    ClaimNotFound(u64),
    InvalidClaim(String),
    EvidenceNotFound(u64),
    InvalidEvidence(String),
    FindingNotFound(u64),
    InvalidFinding(String),
    TransactionNotFound(u64),
    InvalidTransaction(String),
    InvalidCheckpoint(String),
    CheckpointNotFound(String),
    CorruptLog(String),
    InvalidConfig(String),
}

/// The kind of error replaying an event can raise.
pub enum ReplayError {
    CorruptLog,
    ObservationNotFound(u64),
    ClaimNotFound(u64),
    EvidenceNotFound(u64),
    FindingNotFound(u64),
    TransactionNotFound(u64),
}

/// Whether an error is of the given replay kind.
pub open spec fn error_is(e: WorkspaceError, k: ReplayError) -> bool {
    match k {
        ReplayError::CorruptLog => e is CorruptLog,
        ReplayError::ObservationNotFound(id) => e == WorkspaceError::ObservationNotFound(id),
        ReplayError::ClaimNotFound(id) => e == WorkspaceError::ClaimNotFound(id),
        ReplayError::EvidenceNotFound(id) => e == WorkspaceError::EvidenceNotFound(id),
        ReplayError::FindingNotFound(id) => e == WorkspaceError::FindingNotFound(id),
        ReplayError::TransactionNotFound(id) => e == WorkspaceError::TransactionNotFound(id),
    }
}

/// A message given as a literal.
pub fn msg(s: &str) -> (r: String)
    ensures
        r@ == s@,
{
    s.to_owned()
}


/// How an error reads to its user.
pub open spec fn error_message(e: WorkspaceError) -> Seq<char> {
    match e {
        WorkspaceError::InvalidPath(p) => "path must be repository-relative: "@ + p@,
        WorkspaceError::InvalidObjective(m) => "invalid objective: "@ + m@,
        WorkspaceError::InvalidWorkingSet(m) => "invalid working set entry: "@ + m@,
        WorkspaceError::Git(m) => "Git error: "@ + m@,
        WorkspaceError::ObservationNotFound(id) => "observation "@ + decimal(id as nat) + " not found"@,
        WorkspaceError::InvalidObservation(m) => "invalid observation: "@ + m@,
        WorkspaceError::ClaimNotFound(id) => "claim "@ + decimal(id as nat) + " not found"@,
        WorkspaceError::InvalidClaim(m) => "invalid claim: "@ + m@,
        WorkspaceError::EvidenceNotFound(id) => "evidence "@ + decimal(id as nat) + " not found"@,
        WorkspaceError::InvalidEvidence(m) => "invalid evidence: "@ + m@,
        WorkspaceError::FindingNotFound(id) => "finding "@ + decimal(id as nat) + " not found"@,
        WorkspaceError::InvalidFinding(m) => "invalid finding: "@ + m@,
        WorkspaceError::TransactionNotFound(id) => "transaction "@ + decimal(id as nat) + " not found"@,
        WorkspaceError::InvalidTransaction(m) => "invalid transaction: "@ + m@,
        WorkspaceError::InvalidCheckpoint(m) => "invalid checkpoint: "@ + m@,
        WorkspaceError::CheckpointNotFound(label) => "checkpoint "@ + debug_str_spec(label@) + " not found"@,
        WorkspaceError::CorruptLog(m) => "corrupt event log: "@ + m@,
        WorkspaceError::InvalidConfig(m) => "invalid config: "@ + m@,
    }
}

fn prefixed(prefix: &str, m: &String) -> (r: String)
    ensures
        r@ == prefix@ + m@,
{
    let mut out = prefix.to_owned();
    out.append(m.as_str());
    out
}

fn numbered(prefix: &str, id: u64, suffix: &str) -> (r: String)
    ensures
        r@ == prefix@ + decimal(id as nat) + suffix@,
{
    let mut out = prefix.to_owned();
    push_decimal(&mut out, id);
    out.append(suffix);
    out
}

impl WorkspaceError {
    /// The error as its user reads it.
    pub fn message(&self) -> (r: String)
        ensures
            r@ == error_message(*self),
    {
        match self {
            WorkspaceError::InvalidPath(p) => prefixed("path must be repository-relative: ", p),
            WorkspaceError::InvalidObjective(m) => prefixed("invalid objective: ", m),
            WorkspaceError::InvalidWorkingSet(m) => prefixed("invalid working set entry: ", m),
            WorkspaceError::Git(m) => prefixed("Git error: ", m),
            WorkspaceError::ObservationNotFound(id) => numbered("observation ", *id, " not found"),
            WorkspaceError::InvalidObservation(m) => prefixed("invalid observation: ", m),
            WorkspaceError::ClaimNotFound(id) => numbered("claim ", *id, " not found"),
            WorkspaceError::InvalidClaim(m) => prefixed("invalid claim: ", m),
            WorkspaceError::EvidenceNotFound(id) => numbered("evidence ", *id, " not found"),
            WorkspaceError::InvalidEvidence(m) => prefixed("invalid evidence: ", m),
            WorkspaceError::FindingNotFound(id) => numbered("finding ", *id, " not found"),
            WorkspaceError::InvalidFinding(m) => prefixed("invalid finding: ", m),
            WorkspaceError::TransactionNotFound(id) => numbered("transaction ", *id, " not found"),
            WorkspaceError::InvalidTransaction(m) => prefixed("invalid transaction: ", m),
            WorkspaceError::InvalidCheckpoint(m) => prefixed("invalid checkpoint: ", m),
            WorkspaceError::CheckpointNotFound(label) => {
                let mut out = "checkpoint ".to_owned();
                let quoted = debug_str(label.as_str());
                out.append(quoted.as_str());
                out.append(" not found");
                out
            },
            WorkspaceError::CorruptLog(m) => prefixed("corrupt event log: ", m),
            WorkspaceError::InvalidConfig(m) => prefixed("invalid config: ", m),
        }
    }
}

} // verus!

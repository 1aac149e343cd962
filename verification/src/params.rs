//! The inputs of the workspace tools, as plain values, and the few choices
//! made on them before a workspace operation runs.

use vstd::prelude::*;
use crate::drift::{parse_usize, parse_usize_spec};
use crate::model::{ClaimScopeStrategy, ObservationSelector, ReadCaptureRequest};
use crate::text::{chars_of, str_equal, string_from_chars};

verus! {

/// Input of `workspace_record_belief`.
pub struct RecordBeliefParams {
    /// The belief itself, thesis-first.
    pub statement: String,
    /// Cited supporting paths, each repository-relative.
    pub rests_on: Vec<String>,
    /// `declared` (the default) binds only the cited paths;
    /// `conservative-siblings` also binds their repository siblings.
    pub scope: Option<String>,
    /// Return the full audit record instead of the compact receipt.
    pub full: bool,
}

/// Input of `workspace_amend_claim`.
pub struct AmendClaimParams {
    pub claim_id: u64,
    pub statement: String,
    pub rests_on: Vec<String>,
    pub scope: Option<String>,
    pub full: bool,
}

/// Input of `workspace_bind_objective`.
pub struct BindObjectiveParams {
    pub intent: String,
    pub external_reference: Option<String>,
}

/// Input of `workspace_supersede_claim`.
pub struct SupersedeClaimParams {
    pub claim_id: u64,
    pub replacement_claim_id: u64,
    pub reason: String,
    pub full: bool,
}

/// Input of `workspace_retire_claim`.
pub struct RetireClaimParams {
    pub claim_id: u64,
    pub reason: String,
    pub full: bool,
}

/// Input of `workspace_checkpoint`.
pub struct CheckpointParams {
    pub label: String,
    pub note: Option<String>,
}

/// Input of `workspace_observe_read`.
pub struct ObserveReadParams {
    /// Repository-relative path the native read tool opened.
    pub path: String,
    /// Harness identifier stamped on the observation (`read` by default).
    pub provider: Option<String>,
    pub offset: Option<usize>,
    pub limit: Option<usize>,
    /// The exact text the model saw, harness chrome already stripped.
    pub model_visible_text: String,
    pub model_visible_bytes: Option<usize>,
    pub truncated: bool,
}

/// Input shared by projections with a bounded default and a full expansion.
pub struct FullParams {
    pub full: bool,
}

/// Input of `workspace_delta`.
pub struct DeltaParams {
    pub full: bool,
    /// Diff against this checkpoint label instead of the latest one.
    pub since: Option<String>,
}

/// Input of `workspace_transaction_preview`.
pub struct TransactionPreviewParams {
    pub transaction: u64,
}

/// The scope strategy a tool's `scope` names: `conservative-siblings`
/// selects sibling files, anything else (or nothing) the declared scope.
pub open spec fn scope_strategy_spec(scope: Option<Seq<char>>) -> ClaimScopeStrategy {
    if scope == Some("conservative-siblings"@) {
        ClaimScopeStrategy::ConservativeSiblingFiles
    } else {
        ClaimScopeStrategy::Declared
    }
}

pub fn scope_strategy(scope: &Option<String>) -> (r: ClaimScopeStrategy)
    ensures
        r == scope_strategy_spec(crate::model::opt_str(*scope)),
{
    match scope {
        Some(s) => if str_equal(s.as_str(), "conservative-siblings") {
            ClaimScopeStrategy::ConservativeSiblingFiles
        } else {
            ClaimScopeStrategy::Declared
        },
        None => ClaimScopeStrategy::Declared,
    }
}

/// The provider an observed read is stamped with: the given one, or `read`.
pub fn read_provider(provider: &Option<String>) -> (r: String)
    ensures
        r@ == match crate::model::opt_str(*provider) {
            Some(p) => p,
            None => "read"@,
        },
{
    match provider {
        Some(p) => p.clone(),
        None => "read".to_owned(),
    }
}

impl ObserveReadParams {
    /// The read capture request these inputs carry.
    pub fn request(&self) -> (r: ReadCaptureRequest)
        ensures
            r.offset == self.offset,
            r.limit == self.limit,
            r.model_visible_text@ == self.model_visible_text@,
            r.model_visible_bytes == self.model_visible_bytes,
            r.truncated == self.truncated,
    {
        ReadCaptureRequest {
            offset: self.offset,
            limit: self.limit,
            model_visible_text: self.model_visible_text.clone(),
            model_visible_bytes: self.model_visible_bytes,
            truncated: self.truncated,
        }
    }
}


/// The index of the first `:`, if any.
pub open spec fn first_colon(s: Seq<char>) -> Option<nat>
    decreases s.len(),
{
    if s.len() == 0 {
        None
    } else {
        match first_colon(s.drop_last()) {
            Some(i) => Some(i),
            None => if s.last() == ':' {
                Some((s.len() - 1) as nat)
            } else {
                None
            },
        }
    }
}

/// A `start:end` byte range as a selector, or the usage message that
/// refuses it.
pub open spec fn byte_range_spec(value: Seq<char>) -> Result<ObservationSelector, Seq<char>> {
    match first_colon(value) {
        None => Err("invalid byte range: "@ + value),
        Some(c) => {
            let start = value.take(c as int);
            let end = value.skip(c + 1 as int);
            match (parse_usize_spec(start), parse_usize_spec(end)) {
                (None, _) => Err("invalid byte range start: "@ + start),
                (Some(_), None) => Err("invalid byte range end: "@ + end),
                (Some(a), Some(b)) => Ok(ObservationSelector::ByteRange { start: a as usize, end: b as usize }),
            }
        },
    }
}

/// Parse a `start:end` byte range.
pub fn parse_byte_range(value: &str) -> (r: Result<ObservationSelector, String>)
    ensures
        match byte_range_spec(value@) {
            Ok(sel) => r matches Ok(s) && s == sel,
            Err(m) => r matches Err(e) && e@ == m,
        },
{
    let s = chars_of(value);
    let mut c: usize = 0;
    assert(s@.take(0) =~= Seq::<char>::empty());
    while c < s.len() && s[c] != ':'
        invariant
            c <= s@.len(),
            first_colon(s@.take(c as int)) is None,
        decreases s@.len() - c,
    {
        assert(s@.take(c as int + 1).drop_last() =~= s@.take(c as int));
        c = c + 1;
    }
    if c == s.len() {
        assert(s@.take(c as int) =~= s@);
        let mut m = "invalid byte range: ".to_owned();
        m.append(value);
        return Err(m);
    }
    proof {
        assert(s@.take(c as int + 1).drop_last() =~= s@.take(c as int));
        lemma_first_colon_prefix(s@, c as int + 1);
    }
    let start = parse_usize(&s, 0, c);
    let end = parse_usize(&s, c + 1, s.len());
    assert(s@.subrange(0, c as int) =~= s@.take(c as int));
    assert(s@.subrange(c as int + 1, s@.len() as int) =~= s@.skip(c as int + 1));
    match (start, end) {
        (None, _) => {
            let mut m = "invalid byte range start: ".to_owned();
            let part = string_from_chars(slice_chars(&s, 0, c));
            m.append(part.as_str());
            Err(m)
        },
        (Some(_), None) => {
            let mut m = "invalid byte range end: ".to_owned();
            let part = string_from_chars(slice_chars(&s, c + 1, s.len()));
            m.append(part.as_str());
            Err(m)
        },
        (Some(a), Some(b)) => Ok(ObservationSelector::ByteRange { start: a, end: b }),
    }
}

/// A colon found in a prefix is the first colon of the whole.
proof fn lemma_first_colon_prefix(s: Seq<char>, n: int)
    requires
        0 <= n <= s.len(),
        first_colon(s.take(n)) is Some,
    ensures
        first_colon(s) == first_colon(s.take(n)),
    decreases s.len() - n,
{
    if n < s.len() {
        assert(s.take(n + 1).drop_last() =~= s.take(n));
        lemma_first_colon_prefix(s, n + 1);
    } else {
        assert(s.take(n) =~= s);
    }
}

fn slice_chars(s: &Vec<char>, from: usize, to: usize) -> (r: Vec<char>)
    requires
        from <= to <= s@.len(),
    ensures
        r@ == s@.subrange(from as int, to as int),
{
    let mut out: Vec<char> = Vec::new();
    let mut i = from;
    while i < to
        invariant
            from <= i <= to <= s@.len(),
            out@ == s@.subrange(from as int, i as int),
        decreases to - i,
    {
        out.push(s[i]);
        i = i + 1;
        assert(out@ =~= s@.subrange(from as int, i as int));
    }
    out
}

} // verus!

//! Mutations under a change transaction: a clean-base write of one path and
//! the revert that restores every owned path to the base revision. Reading
//! and writing files is the caller's; what is allowed, what is recorded and
//! what a conflict is are decided here.

use vstd::prelude::*;
use crate::attention::reversed;
use crate::digest::{hex_digest, hex_digest_spec};
use crate::error::WorkspaceError;
use crate::event::Event;
use crate::model::{mutations_view, Mutation, MutationView, Transaction, TransactionState, TransactionView};
use crate::paths::{is_relative_path, validate_relative_path};
use crate::state::ProjectionView;
use crate::store::vseq;
use crate::text::str_equal;
use crate::workspace::{extends, next_record, Workspace};

verus! {

/// Whether a transaction already owns a mutation of `path`.
pub open spec fn owns_path(t: TransactionView, path: Seq<char>) -> bool {
    exists|i: int| 0 <= i < t.mutations.len() && #[trigger] t.mutations[i].path == path
}

/// A transaction may take a mutation of `path` when it is open and owns no
/// mutation of that path yet.
pub open spec fn accepts_mutation(p: ProjectionView, transaction_id: u64, path: Seq<char>) -> bool {
    &&& p.transactions.contains_key(transaction_id)
    &&& p.transactions[transaction_id].state == TransactionState::Open
    &&& !owns_path(p.transactions[transaction_id], path)
}

/// The refusals of a mutation request, in the order they are checked:
/// an invalid path, an unknown transaction, one that is not open or already
/// owns the path.
pub open spec fn mutation_refused(p: ProjectionView, transaction_id: u64, path: Seq<char>, r: Result<(), WorkspaceError>) -> bool {
    if !is_relative_path(path) {
        r matches Err(WorkspaceError::InvalidPath(m)) && m@ == path
    } else if !p.transactions.contains_key(transaction_id) {
        r == Err::<(), WorkspaceError>(WorkspaceError::TransactionNotFound(transaction_id))
    } else {
        r matches Err(WorkspaceError::InvalidTransaction(m))
            && m@ == "transaction is not open or already owns this path"@
    }
}

fn owns_path_exec(t: &Transaction, path: &str) -> (r: bool)
    ensures
        r == owns_path(t@, path@),
{
    let mut i: usize = 0;
    while i < t.mutations.len()
        invariant
            i <= t.mutations@.len(),
            forall|k: int| 0 <= k < i ==> (#[trigger] mutations_view(t.mutations@)[k]).path != path@,
        decreases t.mutations@.len() - i,
    {
        if str_equal(t.mutations[i].path.as_str(), path) {
            assert(t@.mutations[i as int].path == path@);
            return true;
        }
        i = i + 1;
    }
    false
}

/// What a revert reads for one owned path: its bytes in the worktree and at
/// the transaction's base revision.
pub struct RevertRead {
    pub owned: Vec<u8>,
    pub original: Vec<u8>,
}

pub struct RevertReadView {
    pub owned: Seq<u8>,
    pub original: Seq<u8>,
}

impl View for RevertRead {
    type V = RevertReadView;

    open spec fn view(&self) -> RevertReadView {
        RevertReadView { owned: self.owned@, original: self.original@ }
    }
}

/// Why a revert cannot proceed, checking the owned paths newest mutation
/// first from `i` on: the worktree bytes must be what the mutation wrote
/// (else a conflict), and the base bytes what it replaced (else the log is
/// corrupt). The flag says whether the log is corrupt.
pub open spec fn revert_refusal_from(ms: Seq<MutationView>, reads: Seq<RevertReadView>, i: nat) -> Option<(bool, Seq<char>)>
    decreases ms.len() - i,
{
    if i >= ms.len() || i >= reads.len() {
        None
    } else if hex_digest_spec(reads[i as int].owned) != ms[i as int].after_fingerprint {
        Some((false, "revert conflict on "@ + ms[i as int].path))
    } else if hex_digest_spec(reads[i as int].original) != ms[i as int].before_fingerprint {
        Some((true, "base fingerprint mismatch for "@ + ms[i as int].path))
    } else {
        revert_refusal_from(ms, reads, i + 1)
    }
}

impl Workspace {
    /// The normalized path and the base revision a mutation of `path` under
    /// the transaction is checked against; or why it is refused.
    pub fn mutation_base(&self, transaction_id: u64, path: &str) -> (r: Result<(String, String), WorkspaceError>)
        requires
            self.wf(),
        ensures
            accepts_mutation(self.projection(), transaction_id, path@) && is_relative_path(path@) ==> (r matches Ok(
                (p, rev),
            ) && p@ == path@ && rev@ == self.projection().transactions[transaction_id].base_revision),
            !(accepts_mutation(self.projection(), transaction_id, path@) && is_relative_path(path@))
                ==> mutation_refused(self.projection(), transaction_id, path@, match r {
                Ok(_) => Ok(()),
                Err(e) => Err(e),
            }),
    {
        let path = match validate_relative_path(path) {
            Ok(p) => p,
            Err(e) => return Err(e),
        };
        let t = match self.transaction_at(transaction_id) {
            Some(t) => t,
            None => return Err(WorkspaceError::TransactionNotFound(transaction_id)),
        };
        if t.state != TransactionState::Open || owns_path_exec(&t, path.as_str()) {
            return Err(
                WorkspaceError::InvalidTransaction(
                    "transaction is not open or already owns this path".to_owned(),
                ),
            );
        }
        Ok((path, t.base_revision.clone()))
    }

    /// The mutation a clean-base write of `new_contents` to `path` records,
    /// given the path's bytes at the base revision and in the worktree: the
    /// worktree must still hold the base bytes.
    pub fn prepare_mutation(
        &self,
        transaction_id: u64,
        path: &str,
        before: &[u8],
        current: &[u8],
        new_contents: &[u8],
    ) -> (r: Result<Mutation, WorkspaceError>)
        requires
            self.wf(),
        ensures
            !(accepts_mutation(self.projection(), transaction_id, path@) && is_relative_path(path@))
                ==> mutation_refused(self.projection(), transaction_id, path@, match r {
                Ok(_) => Ok(()),
                Err(e) => Err(e),
            }),
            accepts_mutation(self.projection(), transaction_id, path@) && is_relative_path(path@) ==> if current@
                != before@ {
                r matches Err(WorkspaceError::InvalidTransaction(m))
                    && m@ == "S6 clean-base mutation requires the path to match the base revision"@
            } else {
                r matches Ok(m) && m@ == (MutationView {
                    path: path@,
                    before_fingerprint: hex_digest_spec(before@),
                    after_fingerprint: hex_digest_spec(new_contents@),
                })
            },
    {
        let (p, _) = match self.mutation_base(transaction_id, path) {
            Ok(x) => x,
            Err(e) => return Err(e),
        };
        if !bytes_equal(current, before) {
            return Err(
                WorkspaceError::InvalidTransaction(
                    "S6 clean-base mutation requires the path to match the base revision".to_owned(),
                ),
            );
        }
        Ok(
            Mutation {
                path: p,
                before_fingerprint: hex_digest(before),
                after_fingerprint: hex_digest(new_contents),
            },
        )
    }

    /// Record a mutation of `path` under the transaction: `before` is the
    /// path's bytes at the transaction's base revision, `current` what the
    /// worktree held before the caller wrote `new_contents`. The transaction
    /// takes ownership of the path with the fingerprints of what was replaced
    /// and what was written. A transaction that may not take the path, a
    /// base that is not clean, or a full sequence leaves the log unchanged.
    pub fn apply_file_mutation(
        &mut self,
        transaction_id: u64,
        path: &str,
        before: &[u8],
        current: &[u8],
        new_contents: &[u8],
    ) -> (r: Result<Transaction, WorkspaceError>)
        requires
            old(self).wf(),
        ensures
            final(self).wf(),
            !(accepts_mutation(old(self).projection(), transaction_id, path@) && is_relative_path(path@))
                ==> final(self).records() == old(self).records() && mutation_refused(
                old(self).projection(),
                transaction_id,
                path@,
                match r {
                    Ok(_) => Ok(()),
                    Err(e) => Err(e),
                },
            ),
            accepts_mutation(old(self).projection(), transaction_id, path@) && is_relative_path(path@) && current@
                != before@ ==> final(self).records() == old(self).records() && (r matches Err(
                WorkspaceError::InvalidTransaction(m),
            ) && m@ == "S6 clean-base mutation requires the path to match the base revision"@),
            accepts_mutation(old(self).projection(), transaction_id, path@) && is_relative_path(path@) && current@
                == before@ ==> ({
                let mv = MutationView {
                    path: path@,
                    before_fingerprint: hex_digest_spec(before@),
                    after_fingerprint: hex_digest_spec(new_contents@),
                };
                let t = old(self).projection().transactions[transaction_id];
                match r {
                    Ok(rt) => {
                        &&& final(self).records().len() == old(self).records().len() + 1
                        &&& extends(old(self).records(), final(self).records())
                        &&& final(self).records().last().event matches Event::MutationApplied {
                            transaction_id: id,
                            mutation,
                        } && id == transaction_id && mutation@ == mv
                        &&& rt@ == final(self).projection().transactions[transaction_id]
                        &&& rt@ == (TransactionView { mutations: t.mutations.push(mv), ..t })
                    },
                    Err(e) => e is CorruptLog && final(self).records() == old(self).records()
                        && old(self).projection().next_sequence == u64::MAX,
                }
            }),
    {
        let mutation = match self.prepare_mutation(transaction_id, path, before, current, new_contents) {
            Ok(m) => m,
            Err(e) => {
                return Err(e);
            },
        };
        let ghost old_records = self.records();
        let r = self.record_mutation(transaction_id, mutation);
        proof {
            if r is Ok {
                assert(self.records().last() == self.records()[old_records.len() as int]);
                assert forall|i: int| 0 <= i < old_records.len() implies #[trigger] self.records()[i] == old_records[i] by {}
            }
        }
        r
    }

    /// Record a prepared mutation: the transaction takes ownership of its
    /// path. A transaction that may not take it, or a full sequence, leaves
    /// the log unchanged.
    fn record_mutation(&mut self, transaction_id: u64, mutation: Mutation) -> (r: Result<
        Transaction,
        WorkspaceError,
    >)
        requires
            old(self).wf(),
        ensures
            final(self).wf(),
            !accepts_mutation(old(self).projection(), transaction_id, mutation@.path) ==> final(self).records()
                == old(self).records() && if !old(self).projection().transactions.contains_key(transaction_id) {
                r == Err::<Transaction, WorkspaceError>(WorkspaceError::TransactionNotFound(transaction_id))
            } else {
                r matches Err(WorkspaceError::InvalidTransaction(m))
                    && m@ == "transaction is not open or already owns this path"@
            },
            accepts_mutation(old(self).projection(), transaction_id, mutation@.path) ==> match r {
                Ok(t) => final(self).records() == old(self).records().push(
                    next_record(old(self).projection(), Event::MutationApplied { transaction_id, mutation }),
                ) && t@ == final(self).projection().transactions[transaction_id] && t@ == (TransactionView {
                    mutations: old(self).projection().transactions[transaction_id].mutations.push(mutation@),
                    ..old(self).projection().transactions[transaction_id]
                }),
                Err(e) => e is CorruptLog && final(self).records() == old(self).records()
                    && old(self).projection().next_sequence == u64::MAX,
            },
    {
        let t = match self.transaction_at(transaction_id) {
            Some(t) => t,
            None => return Err(WorkspaceError::TransactionNotFound(transaction_id)),
        };
        if t.state != TransactionState::Open || owns_path_exec(&t, mutation.path.as_str()) {
            return Err(
                WorkspaceError::InvalidTransaction(
                    "transaction is not open or already owns this path".to_owned(),
                ),
            );
        }
        match self.append(Event::MutationApplied { transaction_id, mutation }) {
            Ok(()) => match self.transaction_at(transaction_id) {
                Some(t) => Ok(t),
                None => Err(WorkspaceError::TransactionNotFound(transaction_id)),
            },
            Err(e) => Err(e),
        }
    }

    /// The mutations a revert undoes, newest first; or why the transaction
    /// cannot be reverted.
    pub fn revert_targets(&self, transaction_id: u64) -> (r: Result<Vec<Mutation>, WorkspaceError>)
        requires
            self.wf(),
        ensures
            !self.projection().transactions.contains_key(transaction_id) ==> r == Err::<
                Vec<Mutation>,
                WorkspaceError,
            >(WorkspaceError::TransactionNotFound(transaction_id)),
            self.projection().transactions.contains_key(transaction_id) ==> ({
                let t = self.projection().transactions[transaction_id];
                if t.state != TransactionState::Open || t.mutations.len() == 0 {
                    r matches Err(WorkspaceError::InvalidTransaction(m))
                        && m@ == "transaction is not open or has no mutations"@
                } else {
                    r matches Ok(ms) && mutations_view(ms@) == reversed(t.mutations)
                }
            }),
    {
        let t = match self.transaction_at(transaction_id) {
            Some(t) => t,
            None => return Err(WorkspaceError::TransactionNotFound(transaction_id)),
        };
        if t.state != TransactionState::Open || t.mutations.len() == 0 {
            return Err(
                WorkspaceError::InvalidTransaction("transaction is not open or has no mutations".to_owned()),
            );
        }
        let mut out: Vec<Mutation> = Vec::new();
        let mut j: usize = t.mutations.len();
        while j > 0
            invariant
                j <= t.mutations@.len(),
                mutations_view(out@) == reversed(mutations_view(t.mutations@)).take((t.mutations@.len() - j) as int),
            decreases j,
        {
            let m = t.mutations[j - 1].clone();
            let ghost before = mutations_view(out@);
            let ghost mv = m@;
            out.push(m);
            j = j - 1;
            assert(mutations_view(out@) =~= before.push(mv));
            assert(mutations_view(out@) =~= reversed(mutations_view(t.mutations@)).take((t.mutations@.len() - j) as int));
        }
        assert(mutations_view(out@) =~= reversed(mutations_view(t.mutations@)));
        Ok(out)
    }

    /// Check what a revert read for each owned path, newest mutation first:
    /// the worktree must hold what the mutation wrote and the base revision
    /// what it replaced.
    pub fn check_revert(&self, transaction_id: u64, reads: &Vec<RevertRead>) -> (r: Result<(), WorkspaceError>)
        requires
            self.wf(),
        ensures
            !self.projection().transactions.contains_key(transaction_id) ==> r == Err::<(), WorkspaceError>(
                WorkspaceError::TransactionNotFound(transaction_id),
            ),
            self.projection().transactions.contains_key(transaction_id) ==> match revert_refusal_from(
                reversed(self.projection().transactions[transaction_id].mutations),
                vseq(reads@),
                0,
            ) {
                Some((true, m)) => r matches Err(WorkspaceError::CorruptLog(e)) && e@ == m,
                Some((false, m)) => r matches Err(WorkspaceError::InvalidTransaction(e)) && e@ == m,
                None => r is Ok,
            },
    {
        let t = match self.transaction_at(transaction_id) {
            Some(t) => t,
            None => return Err(WorkspaceError::TransactionNotFound(transaction_id)),
        };
        let ghost ms = reversed(mutations_view(t.mutations@));
        let ghost rs = vseq(reads@);
        let n = t.mutations.len();
        let mut i: usize = 0;
        while i < n && i < reads.len()
            invariant
                self.projection().transactions.contains_key(transaction_id),
                t@ == self.projection().transactions[transaction_id],
                n == t.mutations@.len(),
                ms == reversed(mutations_view(t.mutations@)),
                rs == vseq(reads@),
                i <= n,
                revert_refusal_from(ms, rs, 0) == revert_refusal_from(ms, rs, i as nat),
            decreases n - i,
        {
            let m = &t.mutations[n - 1 - i];
            let read = &reads[i];
            assert(ms[i as int] == m@);
            assert(rs[i as int] == read@);
            let owned = hex_digest(read.owned.as_slice());
            if !str_equal(owned.as_str(), m.after_fingerprint.as_str()) {
                let mut msg = "revert conflict on ".to_owned();
                msg.append(m.path.as_str());
                return Err(WorkspaceError::InvalidTransaction(msg));
            }
            let original = hex_digest(read.original.as_slice());
            if !str_equal(original.as_str(), m.before_fingerprint.as_str()) {
                let mut msg = "base fingerprint mismatch for ".to_owned();
                msg.append(m.path.as_str());
                return Err(WorkspaceError::CorruptLog(msg));
            }
            i = i + 1;
        }
        Ok(())
    }

    /// Record a revert, given what was read for each owned path (newest
    /// mutation first) before restoring it: the transaction becomes reverted.
    /// A transaction that is not open or owns no mutation, an owned path that
    /// no longer holds what its mutation wrote, a base that is not what it
    /// replaced, or a full sequence, leaves the log unchanged.
    pub fn revert_transaction(&mut self, transaction_id: u64, reads: &Vec<RevertRead>) -> (r: Result<
        Transaction,
        WorkspaceError,
    >)
        requires
            old(self).wf(),
            old(self).projection().transactions.contains_key(transaction_id) ==> reads@.len()
                == old(self).projection().transactions[transaction_id].mutations.len(),
        ensures
            final(self).wf(),
            !old(self).projection().transactions.contains_key(transaction_id) ==> final(self).records()
                == old(self).records() && r == Err::<Transaction, WorkspaceError>(
                WorkspaceError::TransactionNotFound(transaction_id),
            ),
            old(self).projection().transactions.contains_key(transaction_id) ==> ({
                let t = old(self).projection().transactions[transaction_id];
                if t.state != TransactionState::Open || t.mutations.len() == 0 {
                    final(self).records() == old(self).records() && (r matches Err(
                        WorkspaceError::InvalidTransaction(m),
                    ) && m@ == "transaction is not open or has no mutations"@)
                } else {
                    match revert_refusal_from(reversed(t.mutations), vseq(reads@), 0) {
                        Some((true, m)) => final(self).records() == old(self).records() && (r matches Err(
                            WorkspaceError::CorruptLog(e),
                        ) && e@ == m),
                        Some((false, m)) => final(self).records() == old(self).records() && (r matches Err(
                            WorkspaceError::InvalidTransaction(e),
                        ) && e@ == m),
                        None => match r {
                            Ok(rt) => final(self).records() == old(self).records().push(
                                next_record(old(self).projection(), Event::TransactionReverted { transaction_id }),
                            ) && rt@ == final(self).projection().transactions[transaction_id] && rt@ == (
                            TransactionView { state: TransactionState::Reverted, ..t }),
                            Err(e) => e is CorruptLog && final(self).records() == old(self).records()
                                && old(self).projection().next_sequence == u64::MAX,
                        },
                    }
                }
            }),
    {
        let t = match self.transaction_at(transaction_id) {
            Some(t) => t,
            None => return Err(WorkspaceError::TransactionNotFound(transaction_id)),
        };
        if t.state != TransactionState::Open || t.mutations.len() == 0 {
            return Err(
                WorkspaceError::InvalidTransaction("transaction is not open or has no mutations".to_owned()),
            );
        }
        match self.check_revert(transaction_id, reads) {
            Ok(()) => {},
            Err(e) => {
                return Err(e);
            },
        }
        match self.append(Event::TransactionReverted { transaction_id }) {
            Ok(()) => match self.transaction_at(transaction_id) {
                Some(t) => Ok(t),
                None => Err(WorkspaceError::TransactionNotFound(transaction_id)),
            },
            Err(e) => Err(e),
        }
    }
}

/// Whether two byte strings are equal.
pub fn bytes_equal(a: &[u8], b: &[u8]) -> (r: bool)
    ensures
        r == (a@ == b@),
{
    if a.len() != b.len() {
        return false;
    }
    let mut i: usize = 0;
    while i < a.len()
        invariant
            i <= a@.len(),
            a@.len() == b@.len(),
            forall|k: int| 0 <= k < i ==> a@[k] == b@[k],
        decreases a@.len() - i,
    {
        if a[i] != b[i] {
            return false;
        }
        i = i + 1;
    }
    assert(a@ =~= b@);
    true
}

} // verus!

//! Which normalizer a fresh capture uses for a path: a builtin mapping by
//! file extension (`rs` to rustfmt, everything else raw bytes) overlaid by
//! a repository's declared configuration. Configuration may name only a
//! registered tool; an unknown one fails closed.

use vstd::prelude::*;
use vstd::string::*;

use crate::error::WorkspaceError;
use crate::model::{normalizer_for_tool_name, Normalizer};
use crate::paths::{lower_seq, path_extension, path_extension_exec};
use crate::text::chars_of;

verus! {

/// Where a repository declares its normalizers, relative to its root.
pub const CONFIG_RELATIVE_PATH: &'static str = ".agent-workspace/normalizers.toml";

/// Lowercased extension to normalizer; a later entry overrides an earlier
/// one for the same extension.
pub struct NormalizerConfig {
    pub by_extension: Vec<(String, Normalizer)>,
}

pub open spec fn entries_map(entries: Seq<(String, Normalizer)>) -> Map<Seq<char>, Normalizer>
    decreases entries.len(),
{
    if entries.len() == 0 {
        Map::empty()
    } else {
        entries_map(entries.drop_last()).insert(entries.last().0@, entries.last().1)
    }
}

impl View for NormalizerConfig {
    type V = Map<Seq<char>, Normalizer>;

    open spec fn view(&self) -> Map<Seq<char>, Normalizer> {
        entries_map(self.by_extension@)
    }
}

pub open spec fn unknown_tool_message(extension: Seq<char>, tool: Seq<char>) -> Seq<char> {
    ".agent-workspace/normalizers.toml: extension `"@ + extension + "` names unknown normalizer tool `"@
        + tool + "`"@
}

/// The normalizer a capture of a path uses under a mapping.
pub open spec fn normalizer_for_path_spec(m: Map<Seq<char>, Normalizer>, path: Seq<char>) -> Normalizer {
    match path_extension(path) {
        Some(e) => if m.contains_key(lower_seq(e)) {
            m[lower_seq(e)]
        } else {
            Normalizer::Raw
        },
        None => Normalizer::Raw,
    }
}

fn lowercase(s: &str) -> (r: String)
    ensures
        r@ == lower_seq(s@),
{
    crate::paths::lowered(&chars_of(s))
}

/// Entries after position `i` that do not name `key` leave its mapping as
/// the first `i` entries made it.
proof fn lemma_suffix_without_key(s: Seq<(String, Normalizer)>, i: int, key: Seq<char>)
    requires
        0 <= i <= s.len(),
        forall|j: int| i <= j < s.len() ==> (#[trigger] s[j]).0@ != key,
    ensures
        entries_map(s).contains_key(key) == entries_map(s.take(i)).contains_key(key),
        entries_map(s).contains_key(key) ==> entries_map(s)[key] == entries_map(s.take(i))[key],
    decreases s.len() - i,
{
    if i < s.len() {
        let t = s.drop_last();
        assert(s.last() == s[s.len() - 1]);
        assert forall|j: int| i <= j < t.len() implies (#[trigger] t[j]).0@ != key by {
            assert(t[j] == s[j]);
        }
        lemma_suffix_without_key(t, i, key);
        assert(t.take(i) =~= s.take(i));
    } else {
        assert(s.take(i) =~= s);
    }
}

impl NormalizerConfig {
    /// Rust through rustfmt; every other extension raw bytes.
    pub fn builtin_default() -> (r: Self)
        ensures
            r@ == Map::<Seq<char>, Normalizer>::empty().insert("rs"@, Normalizer::Rustfmt),
    {
        let mut by_extension: Vec<(String, Normalizer)> = Vec::new();
        by_extension.push(("rs".to_owned(), Normalizer::Rustfmt));
        let r = NormalizerConfig { by_extension };
        assert(r.by_extension@.drop_last() =~= Seq::<(String, Normalizer)>::empty());
        assert(entries_map(r.by_extension@.drop_last()) =~= Map::<Seq<char>, Normalizer>::empty());
        assert(r@ =~= Map::<Seq<char>, Normalizer>::empty().insert("rs"@, Normalizer::Rustfmt));
        r
    }

    /// Overlay one declared entry: the extension (case-insensitive) now uses
    /// the named tool. An unregistered tool fails closed and leaves the
    /// mapping unchanged.
    pub fn declare(&mut self, extension: &str, tool: &str) -> (r: Result<(), WorkspaceError>)
        ensures
            normalizer_for_tool_name(tool@) matches Some(n) ==> r is Ok && final(self)@ == old(
                self,
            )@.insert(lower_seq(extension@), n),
            normalizer_for_tool_name(tool@) is None ==> final(self)@ == old(self)@ && (
            r matches Err(WorkspaceError::InvalidConfig(m)) && m@ == unknown_tool_message(
                extension@,
                tool@,
            )),
    {
        match Normalizer::from_tool_name(tool) {
            None => {
                let mut m = ".agent-workspace/normalizers.toml: extension `".to_owned();
                m.append(extension);
                m.append("` names unknown normalizer tool `");
                m.append(tool);
                m.append("`");
                Err(WorkspaceError::InvalidConfig(m))
            },
            Some(n) => {
                let key = lowercase(extension);
                let ghost before = self.by_extension@;
                self.by_extension.push((key, n));
                assert(self.by_extension@.drop_last() =~= before);
                Ok(())
            },
        }
    }

    /// The normalizer a fresh capture of `path` uses.
    pub fn for_path(&self, path: &str) -> (r: Normalizer)
        ensures
            r == normalizer_for_path_spec(self@, path@),
    {
        match path_extension_exec(path) {
            None => Normalizer::Raw,
            Some(e) => {
                let key = lowercase(e.as_str());
                assert(crate::model::opt_str(Some(e)) == Some(e@));
                let mut i = self.by_extension.len();
                assert(self.by_extension@.take(i as int) =~= self.by_extension@);
                while i > 0
                    invariant
                        i <= self.by_extension@.len(),
                        key@ == lower_seq(e@),
                        path_extension(path@) == Some(e@),
                        forall|j: int|
                            i <= j < self.by_extension@.len() ==> (#[trigger] self.by_extension@[j]).0@
                                != key@,
                    decreases i,
                {
                    let entry = &self.by_extension[i - 1];
                    assert(self.by_extension@.take(i as int).drop_last() =~= self.by_extension@.take(i - 1));
                    if crate::text::str_equal(entry.0.as_str(), key.as_str()) {
                        proof {
                            lemma_suffix_without_key(self.by_extension@, i as int, key@);
                            let t = self.by_extension@.take(i as int);
                            assert(t.last() == *entry);
                            assert(entries_map(t) == entries_map(t.drop_last()).insert(entry.0@, entry.1));
                            assert(entries_map(t).contains_key(key@));
                            assert(entries_map(t)[key@] == entry.1);
                            assert(path_extension(path@) == Some(e@));
                            assert(self@.contains_key(lower_seq(e@)));
                            assert(self@[lower_seq(e@)] == entry.1);
                        }
                        return entry.1;
                    }
                    i = i - 1;
                }
                proof {
                    lemma_suffix_without_key(self.by_extension@, 0, key@);
                    assert(self.by_extension@.take(0) =~= Seq::<(String, Normalizer)>::empty());
                }
                Normalizer::Raw
            },
        }
    }
}

} // verus!

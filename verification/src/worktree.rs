//! The fingerprint of a worktree: every tracked or unignored path, in
//! bytewise order, with what stands at it (a file's bytes, a link's target,
//! or a mark for a directory or a missing entry), digested as one.

use vstd::prelude::*;
use vstd::string::*;
use crate::digest::{hex_digest, hex_digest_spec};
use crate::error::WorkspaceError;
use crate::sort::{lemma_insert_by_at, sort_by};
use crate::text::{string_from_utf8, utf8};

verus! {

/// Bytewise lexicographic order, as `Vec<u8>` compares.
pub open spec fn lex_less(a: Seq<u8>, b: Seq<u8>) -> bool
    decreases a.len(),
{
    if a.len() == 0 {
        b.len() > 0
    } else if b.len() == 0 {
        false
    } else if a[0] != b[0] {
        a[0] < b[0]
    } else {
        lex_less(a.drop_first(), b.drop_first())
    }
}

pub open spec fn path_order() -> spec_fn(Seq<u8>, Seq<u8>) -> bool {
    |a: Seq<u8>, b: Seq<u8>| !lex_less(b, a)
}

fn lex_less_exec(a: &Vec<u8>, b: &Vec<u8>) -> (r: bool)
    ensures
        r == lex_less(a@, b@),
{
    let mut i: usize = 0;
    assert(a@.skip(0) =~= a@ && b@.skip(0) =~= b@);
    while i < a.len() && i < b.len() && a[i] == b[i]
        invariant
            i <= a@.len() && i <= b@.len(),
            lex_less(a@, b@) == lex_less(a@.skip(i as int), b@.skip(i as int)),
        decreases a@.len() - i,
    {
        assert(a@.skip(i as int).drop_first() =~= a@.skip(i as int + 1));
        assert(b@.skip(i as int).drop_first() =~= b@.skip(i as int + 1));
        i = i + 1;
    }
    if i == a.len() {
        assert(a@.skip(i as int).len() == 0);
        i < b.len()
    } else if i == b.len() {
        assert(b@.skip(i as int).len() == 0);
        false
    } else {
        assert(a@.skip(i as int)[0] == a@[i as int] && b@.skip(i as int)[0] == b@[i as int]);
        a[i] < b[i]
    }
}

/// The non-empty pieces of a NUL-separated listing, in order.
pub open spec fn nul_pieces(s: Seq<u8>) -> Seq<Seq<u8>> {
    pieces_from(s, Seq::empty())
}

/// The pieces of `s` after a current piece `cur`.
pub open spec fn pieces_from(s: Seq<u8>, cur: Seq<u8>) -> Seq<Seq<u8>>
    decreases s.len(),
{
    if s.len() == 0 {
        if cur.len() > 0 {
            seq![cur]
        } else {
            Seq::empty()
        }
    } else if s[0] == 0 {
        (if cur.len() > 0 {
            seq![cur]
        } else {
            Seq::empty()
        }) + pieces_from(s.drop_first(), Seq::empty())
    } else {
        pieces_from(s.drop_first(), cur.push(s[0]))
    }
}

fn nul_pieces_exec(s: &[u8]) -> (r: Vec<Vec<u8>>)
    ensures
        r@.map_values(|p: Vec<u8>| p@) == nul_pieces(s@),
{
    let mut out: Vec<Vec<u8>> = Vec::new();
    let mut cur: Vec<u8> = Vec::new();
    let mut i: usize = 0;
    assert(s@.skip(0) =~= s@);
    assert(cur@ =~= Seq::<u8>::empty());
    assert(out@.map_values(|p: Vec<u8>| p@) + pieces_from(s@.skip(0), cur@) =~= nul_pieces(s@));
    while i < s.len()
        invariant
            i <= s@.len(),
            out@.map_values(|p: Vec<u8>| p@) + pieces_from(s@.skip(i as int), cur@) == nul_pieces(s@),
        decreases s@.len() - i,
    {
        let ghost rest = s@.skip(i as int);
        assert(rest.drop_first() =~= s@.skip(i as int + 1));
        assert(rest[0] == s@[i as int]);
        if s[i] == 0 {
            if cur.len() > 0 {
                let ghost before = out@.map_values(|p: Vec<u8>| p@);
                let ghost c = cur@;
                out.push(cur);
                assert(out@.map_values(|p: Vec<u8>| p@) =~= before.push(c));
                assert(before + (seq![c] + pieces_from(s@.skip(i as int + 1), Seq::empty())) =~= before.push(c)
                    + pieces_from(s@.skip(i as int + 1), Seq::empty()));
            } else {
                assert(Seq::<Seq<u8>>::empty() + pieces_from(s@.skip(i as int + 1), Seq::empty())
                    =~= pieces_from(s@.skip(i as int + 1), Seq::empty()));
            }
            cur = Vec::new();
            assert(cur@ =~= Seq::<u8>::empty());
        } else {
            cur.push(s[i]);
        }
        i = i + 1;
    }
    assert(s@.skip(i as int).len() == 0);
    if cur.len() > 0 {
        let ghost before = out@.map_values(|p: Vec<u8>| p@);
        let ghost c = cur@;
        out.push(cur);
        assert(out@.map_values(|p: Vec<u8>| p@) =~= before.push(c));
    } else {
        assert(out@.map_values(|p: Vec<u8>| p@) + Seq::<Seq<u8>>::empty() =~= out@.map_values(|p: Vec<u8>| p@));
    }
    out
}

fn sort_paths(v: Vec<Vec<u8>>) -> (r: Vec<Vec<u8>>)
    ensures
        r@.map_values(|p: Vec<u8>| p@) == sort_by(v@.map_values(|p: Vec<u8>| p@), path_order()),
{
    let ghost vv = v@.map_values(|p: Vec<u8>| p@);
    let mut out: Vec<Vec<u8>> = Vec::new();
    let mut i: usize = 0;
    while i < v.len()
        invariant
            i <= v@.len(),
            vv == v@.map_values(|p: Vec<u8>| p@),
            out@.map_values(|p: Vec<u8>| p@) == sort_by(vv.take(i as int), path_order()),
        decreases v@.len() - i,
    {
        let x = v[i].clone();
        assert(x@ == vv[i as int]);
        let mut j = out.len();
        while j > 0 && lex_less_exec(&x, &out[j - 1])
            invariant
                j <= out@.len(),
                forall|k: int| j <= k < out@.len() ==> lex_less(x@, #[trigger] out@[k]@),
            decreases j,
        {
            j = j - 1;
        }
        let ghost so = out@.map_values(|p: Vec<u8>| p@);
        proof {
            assert forall|k: int| j <= k < so.len() implies !(path_order())(#[trigger] so[k], x@) by {
                assert(so[k] == out@[k]@);
            }
            if j > 0 {
                assert(so[j - 1] == out@[j - 1]@);
            }
            lemma_insert_by_at(so, x@, path_order(), j as int);
            assert(vv.take(i as int + 1).drop_last() =~= vv.take(i as int));
        }
        let ghost xv = x@;
        out.insert(j, x);
        assert(out@.map_values(|p: Vec<u8>| p@) =~= so.insert(j as int, xv));
        i = i + 1;
    }
    assert(vv.take(i as int) =~= vv);
    out
}

/// The listed paths in bytewise order.
pub open spec fn worktree_order(listed: Seq<u8>) -> Seq<Seq<u8>> {
    sort_by(nul_pieces(listed), path_order())
}

/// How `from_utf8` describes why bytes are not UTF-8.
pub uninterp spec fn utf8_error_text(bytes: Seq<u8>) -> Seq<char>;

/// The `Display` of the error `String::from_utf8` returns; nothing else is
/// claimed of the text.
#[verifier::external_body]
fn utf8_error(bytes: Vec<u8>) -> (r: String)
    ensures
        r@ == utf8_error_text(bytes@),
{
    match String::from_utf8(bytes) {
        Ok(_) => String::new(),
        Err(e) => e.to_string(),
    }
}

/// The first path of `paths` that is not UTF-8, if any.
pub open spec fn first_non_utf8(paths: Seq<Seq<u8>>) -> Option<Seq<u8>>
    decreases paths.len(),
{
    if paths.len() == 0 {
        None
    } else if !vstd::utf8::valid_utf8(paths[0]) {
        Some(paths[0])
    } else {
        first_non_utf8(paths.drop_first())
    }
}

/// The paths of a NUL-separated listing, in bytewise order, as text; a path
/// that is not UTF-8 is refused.
pub fn worktree_paths(listed: &[u8]) -> (r: Result<Vec<String>, WorkspaceError>)
    ensures
        match first_non_utf8(worktree_order(listed@)) {
            Some(bad) => r matches Err(WorkspaceError::Git(m)) && m@
                == "non-UTF-8 Git path is not yet supported: "@ + utf8_error_text(bad),
            None => r matches Ok(ps) && ps@.map_values(|p: String| utf8(p@)) == worktree_order(listed@),
        },
{
    let sorted = sort_paths(nul_pieces_exec(listed));
    let ghost sv = sorted@.map_values(|p: Vec<u8>| p@);
    let mut out: Vec<String> = Vec::new();
    let mut i: usize = 0;
    assert(sv.skip(0) =~= sv);
    assert(out@.map_values(|p: String| utf8(p@)) =~= sv.take(0));
    while i < sorted.len()
        invariant
            i <= sorted@.len(),
            sv == sorted@.map_values(|p: Vec<u8>| p@),
            sv == worktree_order(listed@),
            first_non_utf8(sv) == first_non_utf8(sv.skip(i as int)),
            out@.map_values(|p: String| utf8(p@)) == sv.take(i as int),
        decreases sorted@.len() - i,
    {
        assert(sv.skip(i as int).drop_first() =~= sv.skip(i as int + 1));
        assert(sv.skip(i as int)[0] == sorted@[i as int]@);
        match string_from_utf8(sorted[i].clone()) {
            Some(p) => {
                let ghost before = out@.map_values(|p: String| utf8(p@));
                let ghost pv = p@;
                out.push(p);
                assert(out@.map_values(|p: String| utf8(p@)) =~= before.push(utf8(pv)));
                assert(sv.take(i as int + 1) =~= sv.take(i as int).push(sv[i as int]));
            },
            None => {
                let mut m = "non-UTF-8 Git path is not yet supported: ".to_owned();
                let text = utf8_error(sorted[i].clone());
                m.append(text.as_str());
                return Err(WorkspaceError::Git(m));
            },
        }
        i = i + 1;
    }
    assert(sv.take(i as int) =~= sv);
    assert(sv.skip(i as int).len() == 0);
    Ok(out)
}

/// What stands at a listed path: a link with its target, a directory, a
/// file with its bytes, or nothing.
pub enum WorktreeEntry {
    Symlink { target: Vec<u8> },
    Directory,
    File { bytes: Vec<u8> },
    Missing,
}

pub enum WorktreeEntryView {
    Symlink { target: Seq<u8> },
    Directory,
    File { bytes: Seq<u8> },
    Missing,
}

impl View for WorktreeEntry {
    type V = WorktreeEntryView;

    open spec fn view(&self) -> WorktreeEntryView {
        match self {
            WorktreeEntry::Symlink { target } => WorktreeEntryView::Symlink { target: target@ },
            WorktreeEntry::Directory => WorktreeEntryView::Directory,
            WorktreeEntry::File { bytes } => WorktreeEntryView::File { bytes: bytes@ },
            WorktreeEntry::Missing => WorktreeEntryView::Missing,
        }
    }
}

pub open spec fn symlink_mark() -> Seq<u8> {
    seq![60u8, 115u8, 121u8, 109u8, 108u8, 105u8, 110u8, 107u8, 62u8]
}

pub open spec fn directory_mark() -> Seq<u8> {
    seq![60u8, 100u8, 105u8, 114u8, 101u8, 99u8, 116u8, 111u8, 114u8, 121u8, 62u8]
}

pub open spec fn missing_mark() -> Seq<u8> {
    seq![60u8, 109u8, 105u8, 115u8, 115u8, 105u8, 110u8, 103u8, 62u8]
}

/// One path's share of the material: the path, a NUL, what stands there
/// (`<symlink>` and the target, `<directory>`, the bytes, or `<missing>`),
/// and a NUL.
pub open spec fn entry_material(path: Seq<u8>, e: WorktreeEntryView) -> Seq<u8> {
    path.push(0u8) + match e {
        WorktreeEntryView::Symlink { target } => symlink_mark() + target,
        WorktreeEntryView::Directory => directory_mark(),
        WorktreeEntryView::File { bytes } => bytes,
        WorktreeEntryView::Missing => missing_mark(),
    }.push(0u8)
}

pub open spec fn worktree_material(paths: Seq<Seq<u8>>, entries: Seq<WorktreeEntryView>) -> Seq<u8>
    decreases paths.len(),
{
    if paths.len() == 0 || entries.len() == 0 {
        Seq::empty()
    } else {
        worktree_material(paths.drop_last(), entries.drop_last()) + entry_material(
            paths.last(),
            entries.last(),
        )
    }
}

fn append_all(out: &mut Vec<u8>, b: &Vec<u8>)
    ensures
        final(out)@ == old(out)@ + b@,
{
    let mut c = b.clone();
    assert(c@ =~= b@);
    out.append(&mut c);
}

/// The fingerprint of a worktree: the digest of every listed path's share,
/// given what stands at each path in order.
pub fn worktree_fingerprint(paths: &Vec<String>, entries: &Vec<WorktreeEntry>) -> (r: String)
    requires
        paths@.len() == entries@.len(),
    ensures
        r@ == hex_digest_spec(
            worktree_material(
                paths@.map_values(|p: String| utf8(p@)),
                entries@.map_values(|e: WorktreeEntry| e@),
            ),
        ),
{
    let ghost ps = paths@.map_values(|p: String| utf8(p@));
    let ghost es = entries@.map_values(|e: WorktreeEntry| e@);
    let mut material: Vec<u8> = Vec::new();
    let mut i: usize = 0;
    while i < paths.len()
        invariant
            i <= paths@.len(),
            paths@.len() == entries@.len(),
            ps == paths@.map_values(|p: String| utf8(p@)),
            es == entries@.map_values(|e: WorktreeEntry| e@),
            material@ == worktree_material(ps.take(i as int), es.take(i as int)),
        decreases paths@.len() - i,
    {
        let ghost m0 = material@;
        let pb = crate::text::str_bytes(paths[i].as_str());
        append_all(&mut material, &pb);
        material.push(0u8);
        match &entries[i] {
            WorktreeEntry::Symlink { target } => {
                let mark: Vec<u8> = vec![60u8, 115u8, 121u8, 109u8, 108u8, 105u8, 110u8, 107u8, 62u8];
                append_all(&mut material, &mark);
                append_all(&mut material, target);
            },
            WorktreeEntry::Directory => {
                let mark: Vec<u8> = vec![60u8, 100u8, 105u8, 114u8, 101u8, 99u8, 116u8, 111u8, 114u8, 121u8, 62u8];
                append_all(&mut material, &mark);
            },
            WorktreeEntry::File { bytes } => {
                append_all(&mut material, bytes);
            },
            WorktreeEntry::Missing => {
                let mark: Vec<u8> = vec![60u8, 109u8, 105u8, 115u8, 115u8, 105u8, 110u8, 103u8, 62u8];
                append_all(&mut material, &mark);
            },
        }
        material.push(0u8);
        proof {
            assert(ps.take(i as int + 1).drop_last() =~= ps.take(i as int));
            assert(es.take(i as int + 1).drop_last() =~= es.take(i as int));
            assert(ps[i as int] == utf8(paths@[i as int]@));
            assert(es[i as int] == entries@[i as int]@);
            assert(material@ =~= m0 + entry_material(ps[i as int], es[i as int]));
        }
        i = i + 1;
    }
    assert(ps.take(i as int) =~= ps);
    assert(es.take(i as int) =~= es);
    hex_digest(material.as_slice())
}


/// The whitespace-separated words of a text, with whether the last one is
/// still open.
pub open spec fn words_state(s: Seq<char>) -> (Seq<Seq<char>>, bool)
    decreases s.len(),
{
    if s.len() == 0 {
        (Seq::empty(), false)
    } else {
        let (ws, open) = words_state(s.drop_last());
        let c = s.last();
        if crate::text::is_whitespace(c) {
            (ws, false)
        } else if open {
            (ws.update(ws.len() - 1, ws.last().push(c)), true)
        } else {
            (ws.push(seq![c]), true)
        }
    }
}

pub open spec fn words(s: Seq<char>) -> Seq<Seq<char>> {
    words_state(s).0
}

proof fn lemma_words_open(s: Seq<char>)
    ensures
        words_state(s).1 ==> words_state(s).0.len() > 0,
    decreases s.len(),
{
    if s.len() > 0 {
        lemma_words_open(s.drop_last());
    }
}

fn words_exec(s: &str) -> (r: Vec<Vec<char>>)
    ensures
        r@.map_values(|w: Vec<char>| w@) == words(s@),
{
    let chars = crate::text::chars_of(s);
    let mut out: Vec<Vec<char>> = Vec::new();
    let mut open = false;
    let mut i: usize = 0;
    while i < chars.len()
        invariant
            i <= chars@.len(),
            chars@ == s@,
            (out@.map_values(|w: Vec<char>| w@), open) == words_state(chars@.take(i as int)),
        decreases chars@.len() - i,
    {
        let c = chars[i];
        let ghost before = out@.map_values(|w: Vec<char>| w@);
        proof {
            assert(chars@.take(i as int + 1).drop_last() =~= chars@.take(i as int));
            lemma_words_open(chars@.take(i as int));
        }
        if crate::text::char_is_whitespace(c) {
            open = false;
        } else if open {
            let mut w = out.pop().unwrap();
            w.push(c);
            out.push(w);
            assert(out@.map_values(|w: Vec<char>| w@) =~= before.update(before.len() - 1, before.last().push(c)));
        } else {
            let mut w: Vec<char> = Vec::new();
            w.push(c);
            let ghost wv = w@;
            out.push(w);
            assert(wv =~= seq![c]);
            assert(out@.map_values(|w: Vec<char>| w@) =~= before.push(seq![c]));
            open = true;
        }
        i = i + 1;
    }
    assert(chars@.take(i as int) =~= s@);
    out
}

/// The commit a superproject's gitlink pins, from its `git ls-tree` line
/// (`160000 commit <sha>\t<path>`): the third word, or a refusal naming the
/// submodule.
pub fn pinned_revision(entry: &str, gitlink: &str) -> (r: Result<String, WorkspaceError>)
    ensures
        words(entry@).len() > 2 ==> (r matches Ok(s) && s@ == words(entry@)[2]),
        words(entry@).len() <= 2 ==> (r matches Err(WorkspaceError::Git(m)) && m@
            == "superproject base has no gitlink for submodule "@ + gitlink@),
{
    let ws = words_exec(entry);
    if ws.len() > 2 {
        let w = ws[2].clone();
        assert(ws@.map_values(|w: Vec<char>| w@)[2] == ws@[2]@);
        Ok(crate::text::string_from_chars(w))
    } else {
        let mut m = "superproject base has no gitlink for submodule ".to_owned();
        m.append(gitlink);
        Err(WorkspaceError::Git(m))
    }
}

} // verus!

//! Repository-relative paths: validation, components as `std::path` reads
//! them on Unix, extensions, and the sensitive-file guard.

use vstd::prelude::*;
use vstd::string::*;

use crate::error::WorkspaceError;
use crate::text::{chars_of, str_equal, string_from_chars};

verus! {

// ---------------------------------------------------------------------------
// Validation.
/// `..` stands as a whole segment at `i`.
pub open spec fn parent_segment_at(s: Seq<char>, i: int) -> bool {
    &&& 0 <= i
    &&& i + 2 <= s.len()
    &&& s[i] == '.'
    &&& s[i + 1] == '.'
    &&& (i == 0 || s[i - 1] == '/')
    &&& (i + 2 == s.len() || s[i + 2] == '/')
}

/// A non-empty relative path that never climbs out with `..`.
pub open spec fn is_relative_path(s: Seq<char>) -> bool {
    s.len() > 0 && s[0] != '/' && !(exists|i: int| parent_segment_at(s, i))
}

/// Accept a repository-relative path; reject an empty or absolute one, or
/// one with a `..` component.
pub fn validate_relative_path(path: &str) -> (r: Result<String, WorkspaceError>)
    ensures
        is_relative_path(path@) ==> (r matches Ok(p) && p@ == path@),
        !is_relative_path(path@) ==> (r matches Err(WorkspaceError::InvalidPath(p)) && p@ == path@),
{
    let s = chars_of(path);
    let n = s.len();
    let mut ok = n > 0 && s[0] != '/';
    let mut i: usize = 0;
    while i < n
        invariant
            n == s@.len(),
            s@ == path@,
            i <= n,
            ok == (n > 0 && s@[0] != '/' && forall|k: int| 0 <= k < i ==> !parent_segment_at(s@, k)),
        decreases n - i,
    {
        let found = i + 1 < n && s[i] == '.' && s[i + 1] == '.' && (i == 0 || s[i - 1] == '/') && (i
            + 2 == n || s[i + 2] == '/');
        assert(found == parent_segment_at(s@, i as int));
        if found {
            ok = false;
        }
        i = i + 1;
    }
    proof {
        assert forall|k: int| i <= k implies !parent_segment_at(s@, k) by {}
    }
    if ok {
        Ok(path.to_owned())
    } else {
        Err(WorkspaceError::InvalidPath(path.to_owned()))
    }
}

// ---------------------------------------------------------------------------
// Components.
/// The pieces between `/` separators, empty ones included.
pub open spec fn split_slash(s: Seq<char>) -> Seq<Seq<char>>
    decreases s.len(),
{
    if s.len() == 0 {
        seq![Seq::empty()]
    } else {
        let p = split_slash(s.drop_last());
        if s.last() == '/' {
            p.push(Seq::empty())
        } else {
            p.update(p.len() - 1, p.last().push(s.last()))
        }
    }
}

pub open spec fn dot() -> Seq<char> {
    seq!['.']
}

/// Non-empty pieces; `.` only as the first piece.
pub open spec fn kept_pieces(p: Seq<Seq<char>>) -> Seq<Seq<char>>
    decreases p.len(),
{
    if p.len() == 0 {
        Seq::empty()
    } else {
        let prev = kept_pieces(p.drop_last());
        let x = p.last();
        if x.len() > 0 && (x != dot() || p.len() == 1) {
            prev.push(x)
        } else {
            prev
        }
    }
}

/// The components of a path: a root `/` for an absolute path, a leading
/// `.`, and its named segments.
pub open spec fn components(s: Seq<char>) -> Seq<Seq<char>> {
    if s.len() > 0 && s[0] == '/' {
        seq![seq!['/']] + kept_pieces(split_slash(s))
    } else {
        kept_pieces(split_slash(s))
    }
}

proof fn lemma_split_slash_nonempty(s: Seq<char>)
    ensures
        split_slash(s).len() >= 1,
    decreases s.len(),
{
    if s.len() > 0 {
        lemma_split_slash_nonempty(s.drop_last());
    }
}

/// The components of `path`, in order.
pub fn path_components(path: &str) -> (r: Vec<Vec<char>>)
    ensures
        r@.map_values(|c: Vec<char>| c@) == components(path@),
{
    let s = chars_of(path);
    let mut out: Vec<Vec<char>> = Vec::new();
    let root = s.len() > 0 && s[0] == '/';
    if root {
        let mut r: Vec<char> = Vec::new();
        r.push('/');
        out.push(r);
    }
    let ghost base = out@.map_values(|c: Vec<char>| c@);
    let mut piece: Vec<char> = Vec::new();
    let mut first = true;
    let mut i: usize = 0;
    while i < s.len()
        invariant
            i <= s@.len(),
            s@ == path@,
            first == (split_slash(s@.take(i as int)).len() == 1),
            base == if root {
                seq![seq!['/']]
            } else {
                Seq::<Seq<char>>::empty()
            },
            split_slash(s@.take(i as int)).last() == piece@,
            out@.map_values(|c: Vec<char>| c@) == base + kept_pieces(
                split_slash(s@.take(i as int)).drop_last(),
            ),
        decreases s.len() - i,
    {
        proof {
            assert(s@.take(i + 1).drop_last() =~= s@.take(i as int));
            lemma_split_slash_nonempty(s@.take(i as int));
        }
        if s[i] == '/' {
            let ghost p = split_slash(s@.take(i as int));
            let keep = piece.len() > 0 && (!(piece.len() == 1 && piece[0] == '.') || first);
            proof {
                assert(p.push(Seq::<char>::empty()).drop_last() =~= p);
                assert(p.drop_last().push(p.last()) =~= p);
                if piece.len() == 1 {
                    if piece@[0] == '.' {
                        assert(piece@ =~= dot());
                    } else {
                        assert(piece@[0] != dot()[0]);
                    }
                } else {
                    assert(piece@.len() != dot().len());
                }
            }
            if keep {
                let ghost before = out@;
                let taken = piece;
                out.push(taken);
                assert(out@.map_values(|c: Vec<char>| c@) =~= before.map_values(|c: Vec<char>| c@).push(taken@));
                piece = Vec::new();
            } else {
                piece = Vec::new();
            }
            first = false;
        } else {
            let ghost p = split_slash(s@.take(i as int));
            piece.push(s[i]);
            proof {
                assert(p.update(p.len() - 1, p.last().push(s@[i as int])).drop_last() =~= p.drop_last());
            }
        }
        i = i + 1;
    }
    proof {
        assert(s@.take(s@.len() as int) =~= s@);
        let p = split_slash(s@);
        lemma_split_slash_nonempty(s@);
        assert(p.drop_last().push(p.last()) =~= p);
        if piece.len() == 1 {
            if piece@[0] == '.' {
                assert(piece@ =~= dot());
            } else {
                assert(piece@[0] != dot()[0]);
            }
        } else {
            assert(piece@.len() != dot().len());
        }
    }
    let keep = piece.len() > 0 && (!(piece.len() == 1 && piece[0] == '.') || first);
    if keep {
        let ghost before = out@;
        let taken = piece;
        out.push(taken);
        assert(out@.map_values(|c: Vec<char>| c@) =~= before.map_values(|c: Vec<char>| c@).push(taken@));
    }
    proof {
        if root {
            assert(components(path@) == seq![seq!['/']] + kept_pieces(split_slash(s@)));
        }
    }
    out
}

// ---------------------------------------------------------------------------
// Extensions and the sensitive-file guard.
pub open spec fn lower(c: char) -> char {
    if 'A' <= c <= 'Z' {
        ((c as u32) + 32) as char
    } else {
        c
    }
}

/// ASCII lowercase.
pub open spec fn lower_seq(s: Seq<char>) -> Seq<char> {
    s.map_values(|c: char| lower(c))
}

pub open spec fn starts_with(s: Seq<char>, p: Seq<char>) -> bool {
    s.len() >= p.len() && s.take(p.len() as int) == p
}

/// The index of the last `.` of `s`.
pub open spec fn last_dot(s: Seq<char>) -> Option<int>
    decreases s.len(),
{
    if s.len() == 0 {
        None
    } else if s.last() == '.' {
        Some(s.len() - 1)
    } else {
        last_dot(s.drop_last())
    }
}

/// What follows the last dot of a file name, unless the name has no dot or
/// only a leading one.
pub open spec fn extension_of(name: Seq<char>) -> Option<Seq<char>> {
    match last_dot(name) {
        Some(d) => if d > 0 {
            Some(name.subrange(d + 1, name.len() as int))
        } else {
            None
        },
        None => None,
    }
}

/// A named component: not the root, `.` or `..`.
pub open spec fn is_named(c: Seq<char>) -> bool {
    c != seq!['/'] && c != dot() && c != seq!['.', '.']
}

/// The extension of the path's file name, as `Path::extension` reads it.
pub open spec fn path_extension(s: Seq<char>) -> Option<Seq<char>> {
    let cs = components(s);
    if cs.len() > 0 && is_named(cs.last()) {
        extension_of(cs.last())
    } else {
        None
    }
}

pub open spec fn sensitive_component(c: Seq<char>, is_directory: bool) -> bool {
    ||| c == ".env"@ || starts_with(c, ".env."@)
    ||| is_directory && (c == ".ssh"@ || c == ".aws"@ || c == ".gnupg"@)
    ||| c == "secret"@ || starts_with(c, "secret."@)
    ||| c == "secrets"@ || starts_with(c, "secrets."@)
    ||| c == "credential"@ || starts_with(c, "credential."@)
    ||| c == "credentials"@ || starts_with(c, "credentials."@)
}

pub open spec fn sensitive_extension(e: Seq<char>) -> bool {
    e == "pem"@ || e == "key"@ || e == "p12"@ || e == "pfx"@
}

/// Whether auto-capture must never ingest the path: a `.env` file, a
/// secrets directory, a file named for secrets or credentials (matched per
/// whole component, case-insensitively), or a key or certificate extension.
pub open spec fn is_sensitive_path_spec(s: Seq<char>) -> bool {
    let cs = components(s);
    ||| exists|k: int|
        0 <= k < cs.len() && sensitive_component(lower_seq(#[trigger] cs[k]), k + 1 < cs.len())
    ||| match path_extension(s) {
        Some(e) => sensitive_extension(lower_seq(e)),
        None => false,
    }
}

pub fn lowered(c: &Vec<char>) -> (r: String)
    ensures
        r@ == lower_seq(c@),
{
    let mut v: Vec<char> = Vec::new();
    let mut i: usize = 0;
    while i < c.len()
        invariant
            i <= c@.len(),
            v@ == lower_seq(c@).take(i as int),
        decreases c.len() - i,
    {
        let x = c[i];
        let y = if 'A' <= x && x <= 'Z' {
            char_from_u32_ascii(x as u32 + 32)
        } else {
            x
        };
        v.push(y);
        assert(v@ =~= lower_seq(c@).take(i + 1));
        i = i + 1;
    }
    assert(lower_seq(c@).take(c@.len() as int) =~= lower_seq(c@));
    string_from_chars(v)
}

fn char_from_u32_ascii(u: u32) -> (r: char)
    requires
        97 <= u <= 122,
    ensures
        r == u as char,
{
    let b = u as u8;
    b as char
}

fn starts_with_lit(s: &String, p: &str) -> (r: bool)
    ensures
        r == starts_with(s@, p@),
{
    let n = p.unicode_len();
    if s.unicode_len() < n {
        return false;
    }
    let head = s.as_str().substring_char(0, n);
    assert(s@.subrange(0, n as int) =~= s@.take(n as int));
    str_equal(head, p)
}

fn is_sensitive_component(c: &String, is_directory: bool) -> (r: bool)
    ensures
        r == sensitive_component(c@, is_directory),
{
    let s = c.as_str();
    (str_equal(s, ".env") || starts_with_lit(c, ".env.")) || (is_directory && (str_equal(s, ".ssh")
        || str_equal(s, ".aws") || str_equal(s, ".gnupg"))) || (str_equal(s, "secret")
        || starts_with_lit(c, "secret.")) || (str_equal(s, "secrets") || starts_with_lit(
        c,
        "secrets.",
    )) || (str_equal(s, "credential") || starts_with_lit(c, "credential.")) || (str_equal(
        s,
        "credentials",
    ) || starts_with_lit(c, "credentials."))
}

fn extension_of_exec(name: &Vec<char>) -> (r: Option<Vec<char>>)
    ensures
        match r {
            Some(e) => extension_of(name@) == Some(e@),
            None => extension_of(name@) is None,
        },
{
    let mut i = name.len();
    assert(name@.take(i as int) =~= name@);
    while i > 0 && name[i - 1] != '.'
        invariant
            i <= name@.len(),
            last_dot(name@) == last_dot(name@.take(i as int)),
        decreases i,
    {
        assert(name@.take(i as int).drop_last() =~= name@.take(i - 1));
        i = i - 1;
    }
    if i == 0 {
        assert(name@.take(0) =~= Seq::<char>::empty());
        return None;
    }
    assert(last_dot(name@.take(i as int)) == Some(i - 1));
    if i - 1 == 0 {
        return None;
    }
    let mut e: Vec<char> = Vec::new();
    let mut k = i;
    while k < name.len()
        invariant
            i <= k <= name@.len(),
            e@ == name@.subrange(i as int, k as int),
        decreases name.len() - k,
    {
        e.push(name[k]);
        assert(e@ =~= name@.subrange(i as int, k + 1));
        k = k + 1;
    }
    Some(e)
}

fn is_named_exec(c: &Vec<char>) -> (r: bool)
    ensures
        r == is_named(c@),
{
    let root = c.len() == 1 && c[0] == '/';
    let cur = c.len() == 1 && c[0] == '.';
    let parent = c.len() == 2 && c[0] == '.' && c[1] == '.';
    proof {
        if c@.len() == 1 {
            if c@[0] == '/' {
                assert(c@ =~= seq!['/']);
            }
            if c@[0] == '.' {
                assert(c@ =~= dot());
            }
            assert(c@ != seq!['.', '.']);
            if c@[0] != '/' {
                assert(c@[0] != seq!['/'][0]);
            }
            if c@[0] != '.' {
                assert(c@[0] != dot()[0]);
            }
        } else if c@.len() == 2 {
            if c@[0] == '.' && c@[1] == '.' {
                assert(c@ =~= seq!['.', '.']);
            } else if c@[0] != '.' {
                assert(c@[0] != seq!['.', '.'][0]);
            } else {
                assert(c@[1] != seq!['.', '.'][1]);
            }
        }
    }
    !(root || cur || parent)
}

/// The extension of a path's file name, as `Path::extension` gives it.
pub fn path_extension_exec(path: &str) -> (r: Option<String>)
    ensures
        crate::model::opt_str(r) == path_extension(path@),
{
    let cs = path_components(path);
    let ghost cv = cs@.map_values(|c: Vec<char>| c@);
    if cs.len() == 0 {
        return None;
    }
    let last = &cs[cs.len() - 1];
    assert(cv.last() == last@);
    if !is_named_exec(last) {
        return None;
    }
    match extension_of_exec(last) {
        Some(e) => Some(string_from_chars(e)),
        None => None,
    }
}

/// Whether a repository-relative path names a file auto-capture must never
/// ingest.
pub fn is_sensitive_repository_path(path: &str) -> (r: bool)
    ensures
        r == is_sensitive_path_spec(path@),
{
    proof {
        reveal_strlit("pem");
        reveal_strlit("key");
        reveal_strlit("p12");
        reveal_strlit("pfx");
    }
    let cs = path_components(path);
    let ghost cv = cs@.map_values(|c: Vec<char>| c@);
    let n = cs.len();
    let mut k: usize = 0;
    while k < n
        invariant
            k <= n,
            n == cs@.len(),
            cv == cs@.map_values(|c: Vec<char>| c@),
            cv == components(path@),
            forall|j: int| 0 <= j < k ==> !sensitive_component(lower_seq(#[trigger] cv[j]), j + 1 < cv.len()),
        decreases n - k,
    {
        let low = lowered(&cs[k]);
        if is_sensitive_component(&low, k + 1 < n) {
            assert(sensitive_component(lower_seq(cv[k as int]), k + 1 < cv.len()));
            return true;
        }
        k = k + 1;
    }
    match path_extension_exec(path) {
        Some(e) => {
            let v = chars_of(e.as_str());
            let low = lowered(&v);
            let s = low.as_str();
            str_equal(s, "pem") || str_equal(s, "key") || str_equal(s, "p12") || str_equal(s, "pfx")
        },
        None => false,
    }
}

} // verus!

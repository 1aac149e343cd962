//! Conservative sibling scope: a claim under this strategy also depends on
//! every regular file beside a supporting path that shares its extension.
//! Listing directories is the caller's; which entries count is decided here.

use vstd::prelude::*;
use crate::paths::path_extension;
use crate::text::{lemma_insert_keeps_sorted, path_less, path_less_spec, paths_sorted_spec, str_equal, strings_view};

verus! {

/// A directory entry as listed: its file name and whether it is a regular
/// file.
pub struct DirEntryInfo {
    pub name: String,
    pub is_file: bool,
}

pub open spec fn listings_view(v: Seq<Vec<DirEntryInfo>>) -> Seq<Seq<DirEntryInfo>> {
    v.map_values(|l: Vec<DirEntryInfo>| l@)
}

/// The index of the last `/`, if any.
pub open spec fn last_slash(s: Seq<char>) -> Option<nat>
    decreases s.len(),
{
    if s.len() == 0 {
        None
    } else if s.last() == '/' {
        Some((s.len() - 1) as nat)
    } else {
        last_slash(s.drop_last())
    }
}

/// The directory of a relative path: what precedes its last `/`, or the
/// empty path.
pub open spec fn parent_of(p: Seq<char>) -> Seq<char> {
    match last_slash(p) {
        Some(i) => p.take(i as int),
        None => Seq::empty(),
    }
}

/// `name` inside `dir`.
pub open spec fn join_name(dir: Seq<char>, name: Seq<char>) -> Seq<char> {
    if dir.len() == 0 {
        name
    } else {
        dir + seq!['/'] + name
    }
}

/// The path entry `k` of the listing of the directory of supporting path
/// `i` proposes, if it proposes one: a regular file with the supporting
/// path's extension that is not itself a supporting path.
pub open spec fn proposed(supporting: Seq<Seq<char>>, listings: Seq<Seq<DirEntryInfo>>, i: int, k: int) -> Option<Seq<char>> {
    let e = listings[i][k];
    let p = join_name(parent_of(supporting[i]), e.name@);
    if e.is_file && path_extension(e.name@) == path_extension(supporting[i]) && !supporting.contains(p) {
        Some(p)
    } else {
        None
    }
}

fn last_slash_exec(s: &Vec<char>) -> (r: Option<usize>)
    ensures
        match r {
            Some(i) => last_slash(s@) == Some(i as nat) && i < s@.len(),
            None => last_slash(s@) is None,
        },
{
    let mut k = s.len();
    assert(s@.take(k as int) =~= s@);
    while k > 0
        invariant
            k <= s@.len(),
            last_slash(s@) == last_slash(s@.take(k as int)),
        decreases k,
    {
        assert(s@.take(k as int).drop_last() =~= s@.take(k as int - 1));
        if s[k - 1] == '/' {
            return Some(k - 1);
        }
        k = k - 1;
    }
    None
}

fn join_parent(supporting: &str, name: &str) -> (r: String)
    ensures
        r@ == join_name(parent_of(supporting@), name@),
{
    let chars = crate::text::chars_of(supporting);
    match last_slash_exec(&chars) {
        None => name.to_owned(),
        Some(i) => {
            let mut dir: Vec<char> = Vec::new();
            let mut j: usize = 0;
            while j < i
                invariant
                    j <= i < chars@.len(),
                    dir@ == chars@.take(j as int),
                decreases i - j,
            {
                dir.push(chars[j]);
                j = j + 1;
                assert(dir@ =~= chars@.take(j as int));
            }
            if dir.len() == 0 {
                return name.to_owned();
            }
            let mut out = crate::text::string_from_chars(dir);
            out.append("/");
            out.append(name);
            proof {
                reveal_strlit("/");
            }
            assert(out@ =~= join_name(parent_of(supporting@), name@));
            out
        },
    }
}

fn contains_string(v: &Vec<String>, x: &str) -> (r: bool)
    ensures
        r == strings_view(v@).contains(x@),
{
    let mut i: usize = 0;
    while i < v.len()
        invariant
            i <= v@.len(),
            forall|k: int| 0 <= k < i ==> v@[k]@ != x@,
        decreases v@.len() - i,
    {
        if str_equal(v[i].as_str(), x) {
            assert(strings_view(v@)[i as int] == x@);
            return true;
        }
        i = i + 1;
    }
    proof {
        if strings_view(v@).contains(x@) {
            let k = choose|k: int| 0 <= k < v@.len() && strings_view(v@)[k] == x@;
            assert(v@[k]@ == x@);
        }
    }
    false
}

fn same_extension(a: &str, b: &str) -> (r: bool)
    ensures
        r == (path_extension(a@) == path_extension(b@)),
{
    match (crate::paths::path_extension_exec(a), crate::paths::path_extension_exec(b)) {
        (None, None) => true,
        (Some(x), Some(y)) => str_equal(x.as_str(), y.as_str()),
        _ => false,
    }
}

/// The sibling dependencies of the supporting paths, given the listing of
/// each one's directory: every regular file there with the same extension
/// that is not itself supporting, once each, in path order.
pub fn conservative_sibling_dependencies(supporting: &Vec<String>, listings: &Vec<Vec<DirEntryInfo>>) -> (r: Vec<String>)
    requires
        supporting@.len() == listings@.len(),
    ensures
        paths_sorted_spec(strings_view(r@)),
        forall|a: int, b: int| 0 <= a < b < r@.len() ==> r@[a]@ != r@[b]@,
        forall|x: Seq<char>| #[trigger] strings_view(r@).contains(x) <==> exists|i: int, k: int|
            0 <= i < listings@.len() && 0 <= k < listings@[i]@.len() && #[trigger] proposed(
                strings_view(supporting@),
                listings_view(listings@),
                i,
                k,
            ) == Some(x),
{
    let ghost sup = strings_view(supporting@);
    let ghost ls = listings_view(listings@);
    let mut out: Vec<String> = Vec::new();
    let mut i: usize = 0;
    while i < listings.len()
        invariant
            i <= listings@.len(),
            supporting@.len() == listings@.len(),
            sup == strings_view(supporting@),
            ls == listings_view(listings@),
            paths_sorted_spec(strings_view(out@)),
            forall|a: int, b: int| 0 <= a < b < out@.len() ==> out@[a]@ != out@[b]@,
            forall|x: Seq<char>| #[trigger] strings_view(out@).contains(x) <==> exists|a: int, k: int|
                0 <= a < i && 0 <= k < ls[a].len() && #[trigger] proposed(sup, ls, a, k) == Some(x),
        decreases listings@.len() - i,
    {
        let entries = &listings[i];
        assert(ls[i as int] == entries@);
        let mut k: usize = 0;
        while k < entries.len()
            invariant
                i < listings@.len(),
                k <= entries@.len(),
                supporting@.len() == listings@.len(),
                sup == strings_view(supporting@),
                ls == listings_view(listings@),
                ls[i as int] == entries@,
                paths_sorted_spec(strings_view(out@)),
                forall|a: int, b: int| 0 <= a < b < out@.len() ==> out@[a]@ != out@[b]@,
                forall|x: Seq<char>| #[trigger] strings_view(out@).contains(x) <==> exists|a: int, kk: int|
                    0 <= a <= i && 0 <= kk < ls[a].len() && (a < i || kk < k) && #[trigger] proposed(
                        sup,
                        ls,
                        a,
                        kk,
                    ) == Some(x),
            decreases entries@.len() - k,
        {
            let e = &entries[k];
            let ghost prop = proposed(sup, ls, i as int, k as int);
            assert(sup[i as int] == supporting@[i as int]@);
            let mut fresh: Option<String> = None;
            if e.is_file && same_extension(e.name.as_str(), supporting[i].as_str()) {
                let p = join_parent(supporting[i].as_str(), e.name.as_str());
                if !contains_string(supporting, p.as_str()) {
                    fresh = Some(p);
                }
            }
            assert(match fresh {
                Some(p) => prop == Some(p@),
                None => prop is None,
            });
            let ghost before = out@;
            match fresh {
                Some(p) => {
                    if !contains_string(&out, p.as_str()) {
                        let mut j = out.len();
                        while j > 0 && path_less(p.as_str(), out[j - 1].as_str())
                            invariant
                                j <= out@.len(),
                                forall|m: int| j <= m < out@.len() ==> path_less_spec(p@, #[trigger] out@[m]@),
                            decreases j,
                        {
                            j = j - 1;
                        }
                        proof {
                            let sv = strings_view(out@);
                            assert forall|m: int| j <= m < sv.len() implies path_less_spec(p@, #[trigger] sv[m]) by {
                                assert(sv[m] == out@[m]@);
                            }
                            if j > 0 {
                                assert(sv[j - 1] == out@[j - 1]@);
                            }
                            lemma_insert_keeps_sorted(sv, j as int, p@);
                        }
                        let ghost pv = p@;
                        out.insert(j, p);
                        proof {
                            assert(strings_view(out@) =~= strings_view(before).insert(j as int, pv));
                            assert forall|a: int, b: int| 0 <= a < b < out@.len() implies out@[a]@ != out@[b]@ by {
                                if a == j as int {
                                    assert(out@[b] == before[b - 1]);
                                    assert(strings_view(before)[b - 1] == before[b - 1]@);
                                } else if b == j as int {
                                    assert(out@[a] == before[a]);
                                    assert(strings_view(before)[a] == before[a]@);
                                } else {
                                    let a0 = if a < j { a } else { a - 1 };
                                    let b0 = if b < j { b } else { b - 1 };
                                    assert(out@[a] == before[a0] && out@[b] == before[b0]);
                                }
                            }
                            assert forall|x: Seq<char>| #[trigger] strings_view(out@).contains(x) <==> (
                            strings_view(before).contains(x) || x == pv) by {
                                let t = strings_view(out@);
                                if t.contains(x) {
                                    let m = choose|m: int| 0 <= m < t.len() && t[m] == x;
                                    if m < j {
                                        assert(strings_view(before)[m] == x);
                                    } else if m > j {
                                        assert(strings_view(before)[m - 1] == x);
                                    }
                                }
                                if strings_view(before).contains(x) {
                                    let m = choose|m: int| 0 <= m < before.len() && strings_view(before)[m] == x;
                                    if m < j {
                                        assert(t[m] == x);
                                    } else {
                                        assert(t[m + 1] == x);
                                    }
                                }
                                if x == pv {
                                    assert(t[j as int] == x);
                                }
                            }
                        }
                    }
                },
                None => {},
            }
            proof {
                assert forall|x: Seq<char>| #[trigger] strings_view(out@).contains(x) <==> exists|a: int, kk: int|
                    0 <= a <= i && 0 <= kk < ls[a].len() && (a < i || kk < k + 1) && #[trigger] proposed(
                        sup,
                        ls,
                        a,
                        kk,
                    ) == Some(x) by {
                    if prop == Some(x) {
                        assert(proposed(sup, ls, i as int, k as int) == Some(x));
                    }
                    if exists|a: int, kk: int|
                        0 <= a <= i && 0 <= kk < ls[a].len() && (a < i || kk < k + 1) && #[trigger] proposed(
                            sup,
                            ls,
                            a,
                            kk,
                        ) == Some(x) {
                        let (a, kk) = choose|a: int, kk: int|
                            0 <= a <= i && 0 <= kk < ls[a].len() && (a < i || kk < k + 1) && #[trigger] proposed(
                                sup,
                                ls,
                                a,
                                kk,
                            ) == Some(x);
                        if !(a < i || kk < k) {
                            assert(a == i && kk == k);
                        }
                    }
                }
            }
            k = k + 1;
        }
        proof {
            assert forall|x: Seq<char>| #[trigger] strings_view(out@).contains(x) <==> exists|a: int, kk: int|
                0 <= a < i + 1 && 0 <= kk < ls[a].len() && #[trigger] proposed(sup, ls, a, kk) == Some(x) by {
                if exists|a: int, kk: int|
                    0 <= a < i + 1 && 0 <= kk < ls[a].len() && #[trigger] proposed(sup, ls, a, kk) == Some(x) {
                    let (a, kk) = choose|a: int, kk: int|
                        0 <= a < i + 1 && 0 <= kk < ls[a].len() && #[trigger] proposed(sup, ls, a, kk)
                            == Some(x);
                    assert(0 <= a <= i && 0 <= kk < ls[a].len() && (a < i || kk < k));
                }
            }
        }
        i = i + 1;
    }
    out
}

} // verus!

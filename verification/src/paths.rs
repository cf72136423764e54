//! Paths as text (Unix conventions): joining, the last component, `~/`
//! expansion, and the repository list of `--repos`.

use vstd::prelude::*;

use crate::order::chars_eq;
use crate::text::{
    chars_of, is_char, slice_range, split_chars, split_where, string_of, trim, trim_spec, vviews,
};

verus! {

/// `Path::join` on Unix: an absolute `rest` replaces `base`; otherwise a `/`
/// goes between them unless `base` is empty or already ends with one.
pub open spec fn join_spec(base: Seq<char>, rest: Seq<char>) -> Seq<char> {
    if rest.len() > 0 && rest[0] == '/' {
        rest
    } else if base.len() > 0 && base.last() != '/' {
        base + seq!['/'] + rest
    } else {
        base + rest
    }
}

/// Joins two paths.
pub fn join_path(base: &str, rest: &str) -> (r: String)
    ensures
        r@ == join_spec(base@, rest@),
{
    let b = chars_of(base);
    let t = chars_of(rest);
    if t.len() > 0 && t[0] == '/' {
        return string_of(t.as_slice());
    }
    let mut r = string_of(b.as_slice());
    if b.len() > 0 && b[b.len() - 1] != '/' {
        crate::text::push_char(&mut r, '/');
    }
    r.append(rest);
    r
}

/// The components of a path that carry a name: the non-empty pieces between
/// `/` other than `.`.
pub open spec fn named_pieces(p: Seq<char>) -> Seq<Seq<char>> {
    split_where(p, is_char('/')).filter(is_named())
}

/// A path piece that names something: non-empty and not `.`.
pub open spec fn is_named() -> spec_fn(Seq<char>) -> bool {
    |x: Seq<char>| x.len() > 0 && x != seq!['.']
}

/// `Path::file_name`: the last component, unless the path ends in `..` or has
/// no named component.
pub open spec fn file_name_spec(p: Seq<char>) -> Option<Seq<char>> {
    let pieces = named_pieces(p);
    if pieces.len() == 0 {
        None
    } else if pieces.last() == seq!['.', '.'] {
        None
    } else {
        Some(pieces.last())
    }
}

/// The last piece with a name, if any.
fn last_named_piece(v: &[char]) -> (r: Option<Vec<char>>)
    ensures
        match r {
            Some(x) => named_pieces(v@).len() > 0 && x@ == named_pieces(v@).last(),
            None => named_pieces(v@).len() == 0,
        },
{
    let parts = split_chars(v, '/');
    let ghost pv = vviews(parts@);
    let ghost pred = is_named();
    let mut i = parts.len();
    assert(pv.take(i as int) =~= pv);
    loop
        invariant
            i <= parts@.len(),
            pv == vviews(parts@),
            pred == is_named(),
            pv.filter(pred) == pv.take(i as int).filter(pred),
            forall|j: int| i <= j < parts@.len() ==> !pred(parts@[j]@),
        ensures
            i == 0 || pred(parts@[i - 1]@),
            i <= parts@.len(),
            pv.filter(pred) == pv.take(i as int).filter(pred),
        decreases i,
    {
        if i == 0 {
            break;
        }
        let dot = ['.'];
        let is_dot = chars_eq(parts[i - 1].as_slice(), &dot);
        if parts[i - 1].len() > 0 && !is_dot {
            assert(dot@ =~= seq!['.']);
            break;
        }
        proof {
            reveal_with_fuel(Seq::filter, 1);
            assert(pv.take(i as int).drop_last() =~= pv.take(i - 1));
            assert(pv.take(i as int).last() == parts@[i - 1]@);
            assert(dot@ =~= seq!['.']);
            assert(!pred(parts@[i - 1]@));
        }
        i -= 1;
    }
    if i == 0 {
        proof {
            reveal_with_fuel(Seq::filter, 1);
            assert(pv.take(0) =~= Seq::<Seq<char>>::empty());
        }
        None
    } else {
        proof {
            reveal_with_fuel(Seq::filter, 1);
            assert(pv.take(i as int).last() == parts@[i - 1]@);
            assert(pred(parts@[i - 1]@));
        }
        let last = &parts[i - 1];
        Some(slice_range(last.as_slice(), 0, last.len()))
    }
}

/// The last component of a path (`Path::file_name`).
pub fn file_name(p: &str) -> (r: Option<String>)
    ensures
        match r {
            Some(x) => file_name_spec(p@) == Some(x@),
            None => file_name_spec(p@) is None,
        },
{
    let v = chars_of(p);
    match last_named_piece(v.as_slice()) {
        None => None,
        Some(x) => {
            assert(x@.subrange(0, x@.len() as int) =~= x@);
            if chars_eq(x.as_slice(), &['.', '.']) {
                None
            } else {
                Some(string_of(x.as_slice()))
            }
        },
    }
}

/// `~/rest` with the home directory `home` in place of `~`; any other text,
/// or any text when there is no home directory, as it is.
pub open spec fn expand_tilde_spec(value: Seq<char>, home: Option<Seq<char>>) -> Seq<char> {
    if value.len() >= 2 && value[0] == '~' && value[1] == '/' && home is Some {
        join_spec(home->0, value.skip(2))
    } else {
        value
    }
}

/// Expands a leading `~/` to the home directory.
pub fn expand_tilde(value: &str, home: Option<&str>) -> (r: String)
    ensures
        r@ == expand_tilde_spec(value@, match home {
            Some(h) => Some(h@),
            None => None,
        }),
{
    let v = chars_of(value);
    if v.len() >= 2 && v[0] == '~' && v[1] == '/' {
        if let Some(h) = home {
            let rest = string_of(slice_range(v.as_slice(), 2, v.len()).as_slice());
            assert(v@.subrange(2, v@.len() as int) =~= v@.skip(2));
            return join_path(h, rest.as_str());
        }
    }
    string_of(v.as_slice())
}

/// `Path::exists`: whether the file system has an entry at `p`. It depends on
/// the disk, so nothing is stated of the result.
#[verifier::external_body]
fn path_exists(p: &str) -> bool {
    std::path::Path::new(p).exists()
}

/// `Path::canonicalize`, as text (lossily where the path is not UTF-8). It
/// depends on the disk, so nothing is stated of the result.
#[verifier::external_body]
fn canonical_path(p: &str) -> Option<String> {
    match std::path::Path::new(p).canonicalize() {
        Ok(pb) => Some(pb.to_string_lossy().into_owned()),
        Err(_) => None,
    }
}

/// Whether `path` holds a git repository: whether the file system has an entry
/// at `git_dir_path(path)`. That depends on the disk: nothing is stated of it.
pub fn is_git_repo(path: &str) -> bool {
    let dot_git = git_dir_path(path);
    path_exists(dot_git.as_str())
}

/// The path whose existence marks `path` as a git repository: `path/.git`.
pub fn git_dir_path(path: &str) -> (r: String)
    ensures
        r@ == join_spec(path@, ".git"@),
{
    join_path(path, ".git")
}

/// The label of a repository: the last component of its canonical path (or of
/// `path` when it has none), or `path` itself when that has no last component.
pub open spec fn basename_spec(path: Seq<char>, canonical: Option<Seq<char>>) -> Seq<char> {
    let source = match canonical {
        Some(c) => c,
        None => path,
    };
    match file_name_spec(source) {
        Some(n) => n,
        None => path,
    }
}

/// The label of a repository, given its canonical path when there is one.
pub fn basename_from(path: &str, canonical: Option<&str>) -> (r: String)
    ensures
        r@ == basename_spec(path@, match canonical {
            Some(c) => Some(c@),
            None => None,
        }),
{
    let source = match canonical {
        Some(c) => c,
        None => path,
    };
    match file_name(source) {
        Some(n) => n,
        None => String::from_str(path),
    }
}

/// The label of a repository: the last component of its canonical path.
pub fn repo_basename(path: &str) -> (r: String)
    ensures
        exists|c: Option<Seq<char>>| r@ == basename_spec(path@, c),
{
    let canonical = canonical_path(path);
    match canonical {
        Some(c) => basename_from(path, Some(c.as_str())),
        None => basename_from(path, None),
    }
}

/// The entries of `--repos a,b,c`: the comma-separated pieces, trimmed, without
/// the empty ones.
pub open spec fn repo_list_spec(repos: Seq<char>) -> Seq<Seq<char>> {
    split_where(repos, is_char(',')).map_values(|x: Seq<char>| trim_spec(x)).filter(
        |x: Seq<char>| x.len() > 0,
    )
}

/// The views of a list of strings.
pub open spec fn sviews(v: Seq<String>) -> Seq<Seq<char>> {
    v.map_values(|x: String| x@)
}

/// Splits the `--repos` list.
pub fn split_repo_list(repos: &str) -> (r: Vec<String>)
    ensures
        sviews(r@) == repo_list_spec(repos@),
{
    let v = chars_of(repos);
    let parts = split_chars(v.as_slice(), ',');
    let ghost pv = vviews(parts@);
    let ghost tr = pv.map_values(|x: Seq<char>| trim_spec(x));
    let ghost pred = |x: Seq<char>| x.len() > 0;
    let mut r: Vec<String> = Vec::new();
    let mut i: usize = 0;
    proof {
        reveal_with_fuel(Seq::filter, 1);
        assert(tr.take(0) =~= Seq::<Seq<char>>::empty());
    }
    while i < parts.len()
        invariant
            i <= parts@.len(),
            pv == vviews(parts@),
            tr == pv.map_values(|x: Seq<char>| trim_spec(x)),
            pred == (|x: Seq<char>| x.len() > 0),
            sviews(r@) == tr.take(i as int).filter(pred),
        decreases parts.len() - i,
    {
        let piece = string_of(parts[i].as_slice());
        let t = trim(piece.as_str());
        proof {
            reveal_with_fuel(Seq::filter, 1);
            assert(tr.take(i + 1).drop_last() =~= tr.take(i as int));
            assert(tr.take(i + 1).last() == t@);
        }
        if !t.as_str().is_empty() {
            r.push(t);
            assert(sviews(r@) =~= tr.take(i as int).filter(pred).push(t@));
        }
        i += 1;
    }
    assert(tr.take(parts@.len() as int) =~= tr);
    r
}

} // verus!

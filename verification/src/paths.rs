//! Paths with `/` between their components.
use vstd::prelude::*;

use crate::list::holds;
use crate::split::{split, split_at_char};
use crate::text::{chars_of, concat3, opt_view, same_text, views};

verus! {

/// A field of a path that is a component: not empty, and no full stop that stands for
/// the directory itself, unless the path begins with it.
pub open spec fn component_at(fields: Seq<Seq<char>>, i: int) -> bool {
    fields[i].len() > 0 && (fields[i] != "."@ || i == 0)
}

/// The components among the first `upto` fields.
pub open spec fn components_upto(fields: Seq<Seq<char>>, upto: int) -> Seq<Seq<char>>
    decreases upto,
{
    if upto <= 0 {
        Seq::empty()
    } else if component_at(fields, upto - 1) {
        components_upto(fields, upto - 1).push(fields[upto - 1])
    } else {
        components_upto(fields, upto - 1)
    }
}

/// The components of a path.
pub open spec fn components_of(path: Seq<char>) -> Seq<Seq<char>> {
    let fields = split_at_char(path, '/');
    components_upto(fields, fields.len() as int)
}

/// A path from the root.
pub open spec fn absolute(path: Seq<char>) -> bool {
    path.len() > 0 && path[0] == '/'
}

/// A path that stays below where it starts.
pub open spec fn safe_relative(path: Seq<char>) -> bool {
    !absolute(path) && !components_of(path).contains(".."@)
}

/// The last component, unless it stands for a directory.
pub open spec fn file_name_of(path: Seq<char>) -> Option<Seq<char>> {
    let c = components_of(path);
    if c.len() == 0 || c.last() == ".."@ || c.last() == "."@ {
        None
    } else {
        Some(c.last())
    }
}

/// The components of a path.
pub fn components(path: &str) -> (r: Vec<String>)
    ensures
        views(r@) == components_of(path@),
{
    let fields = split(path, '/');
    let ghost all = views(fields@);
    let mut r: Vec<String> = Vec::new();
    let mut i: usize = 0;
    proof {
        assert(views(r@) =~= Seq::empty());
    }
    while i < fields.len()
        invariant
            i <= fields@.len(),
            all == views(fields@),
            all.len() == fields@.len(),
            all == split_at_char(path@, '/'),
            views(r@) == components_upto(all, i as int),
        decreases fields@.len() - i,
    {
        let ghost before = views(r@);
        let f = &fields[i];
        proof {
            assert(all[i as int] == f@);
        }
        if !f.as_str().is_empty() && (i == 0 || !same_text(f.as_str(), ".")) {
            r.push(f.clone());
            proof {
                assert(views(r@) =~= before.push(f@));
            }
        }
        i += 1;
    }
    r
}

/// Whether the path starts at the root.
pub fn is_absolute(path: &str) -> (r: bool)
    ensures
        r == absolute(path@),
{
    let v = chars_of(path);
    v.len() > 0 && v[0] == '/'
}

/// The path, if it stays below where it starts.
pub fn safe_relative_path(path: &str) -> (r: Option<String>)
    ensures
        opt_view(r) == if safe_relative(path@) {
            Some(path@)
        } else {
            None
        },
{
    if is_absolute(path) {
        return None;
    }
    let parts = components(path);
    if holds(&parts, "..") {
        None
    } else {
        Some(path.to_owned())
    }
}

/// The last component, unless it stands for a directory.
pub fn file_name(path: &str) -> (r: Option<String>)
    ensures
        opt_view(r) == file_name_of(path@),
{
    let parts = components(path);
    let n: usize = parts.len();
    proof {
        assert(views(parts@).len() == n);
        if n > 0 {
            assert(views(parts@).last() == parts@[n - 1]@);
        }
    }
    if n == 0 || same_text(parts[n - 1].as_str(), "..") || same_text(parts[n - 1].as_str(), ".") {
        None
    } else {
        Some(parts[n - 1].clone())
    }
}

/// The components of a path that may be read in a repository: below its root, and not
/// in its metadata.
pub open spec fn confined(path: Seq<char>) -> bool {
    safe_relative(path) && !components_of(path).contains(".git"@)
}

/// The components of a path that may be read in a repository.
pub fn confined_components(relative: &str) -> (r: Option<Vec<String>>)
    ensures
        match r {
            Some(parts) => confined(relative@) && views(parts@) == components_of(relative@),
            None => !confined(relative@),
        },
{
    if is_absolute(relative) {
        return None;
    }
    let parts = components(relative);
    if holds(&parts, "..") || holds(&parts, ".git") {
        None
    } else {
        Some(parts)
    }
}

/// A path as it stands in a repository: an absolute one is left alone.
pub open spec fn in_repository(repo: Seq<char>, path: Seq<char>) -> Seq<char> {
    if absolute(path) {
        path
    } else if repo.len() == 0 {
        path
    } else if repo.last() == '/' {
        repo + path
    } else {
        repo + "/"@ + path
    }
}

/// A path as it stands in a repository: an absolute one is left alone.
pub fn resolve_repo_path(repo: &str, path: &str) -> (r: String)
    ensures
        r@ == in_repository(repo@, path@),
{
    if is_absolute(path) {
        return path.to_owned();
    }
    let v = chars_of(repo);
    if v.len() == 0 {
        path.to_owned()
    } else if v[v.len() - 1] == '/' {
        crate::text::concat2(repo, path)
    } else {
        concat3(repo, "/", path)
    }
}

/// No path that may be read leaves the repository or enters its metadata.
pub proof fn law_confined_paths(path: Seq<char>)
    requires
        confined(path),
    ensures
        !absolute(path),
        forall|i: int|
            0 <= i < components_of(path).len() ==> (#[trigger] components_of(path)[i]) != ".."@
                && components_of(path)[i] != ".git"@,
{
}

// ---------------------------------------------------------------------------
// What holds of it
// ---------------------------------------------------------------------------

/// The parts of a path are what stands between its slashes, but for empty ones and dots
/// behind the first.
pub proof fn law_parts_of_a_path(fields: Seq<Seq<char>>, n: int)
    requires
        0 < n <= fields.len(),
    ensures
        components_upto(fields, 0).len() == 0,
        fields[n - 1].len() == 0 || (fields[n - 1] == "."@ && n > 1) ==> components_upto(fields, n)
            == components_upto(fields, n - 1),
        fields[n - 1].len() > 0 && fields[n - 1] != "."@ ==> components_upto(fields, n)
            == components_upto(fields, n - 1).push(fields[n - 1]),
{
}

/// A path is safe exactly if it neither starts at the root nor leads up, and confined if it
/// does not lead to the repository's own records either.
pub proof fn law_safe_paths(path: Seq<char>)
    ensures
        safe_relative(path) <==> !(path.len() > 0 && path[0] == '/') && !components_of(
            path,
        ).contains(".."@),
        confined(path) <==> safe_relative(path) && !components_of(path).contains(".git"@),
        safe_relative(Seq::empty()) || components_of(Seq::empty()).contains(".."@),
{
}

/// The name of a file is the last part of its path, unless that names a directory.
pub proof fn law_file_names(path: Seq<char>)
    ensures
        file_name_of(path) matches Some(name) ==> components_of(path).len() > 0 && name
            == components_of(path)[components_of(path).len() - 1] && name != ".."@ && name
            != "."@,
        components_of(path).len() == 0 ==> file_name_of(path) is None,
        components_of(path).len() > 0 && components_of(path).last() != ".."@ && components_of(
            path,
        ).last() != "."@ ==> file_name_of(path) == Some(components_of(path).last()),
{
}

/// A relative path is taken from the repository, and an absolute one as it is.
pub proof fn law_paths_in_a_repository(repo: Seq<char>, path: Seq<char>)
    ensures
        path.len() > 0 && path[0] == '/' ==> in_repository(repo, path) == path,
        (path.len() == 0 || path[0] != '/') && repo.len() > 0 && repo.last() != '/'
            ==> in_repository(repo, path) == repo + "/"@ + path,
        (path.len() == 0 || path[0] != '/') && repo.len() > 0 && repo.last() == '/'
            ==> in_repository(repo, path) == repo + path,
{
}

/// A path may begin with the directory that it is in; a full stop anywhere else in it says
/// nothing.
pub proof fn law_full_stops_say_nothing(fields: Seq<Seq<char>>, n: int)
    requires
        0 < n <= fields.len(),
        fields[n - 1] == "."@,
    ensures
        n == 1 ==> components_upto(fields, n) == seq!["."@],
        n > 1 ==> components_upto(fields, n) == components_upto(fields, n - 1),
{
    reveal_strlit(".");
    if n == 1 {
        assert(components_upto(fields, 0) =~= Seq::empty());
        assert(components_upto(fields, 1) =~= seq!["."@]);
    }
}

} // verus!

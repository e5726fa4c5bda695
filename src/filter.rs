//! The exclusion rules applied to every candidate path: lock files, hidden
//! components below the root, and the version-control ignore rules.
use vstd::prelude::*;
use crate::text::{chars_of, occurs_at_exec, same_text, string_of};
use crate::paths::{
    file_name, file_name_chars, has_hidden_component, has_hidden_component_exec, hidden_at,
};
use crate::strip::ends_with;

verus! {

/// A dependency lock file: a name ending in `.lock`, or one of the lock
/// files of the common package managers.
pub open spec fn is_lock_path(p: Seq<char>) -> bool {
    match file_name(p) {
        Some(n) => {
            ||| ends_with(n, ".lock"@)
            ||| n == "Cargo.lock"@
            ||| n == "package-lock.json"@
            ||| n == "yarn.lock"@
            ||| n == "Pipfile.lock"@
            ||| n == "poetry.lock"@
        },
        None => false,
    }
}

/// `p` lies at or below `root` (component-wise prefix of the text).
pub open spec fn under_root(p: Seq<char>, root: Seq<char>) -> bool {
    &&& root.len() <= p.len()
    &&& p.subrange(0, root.len() as int) == root
    &&& (p.len() == root.len() || p[root.len() as int] == '/' || (root.len() > 0 && root.last()
        == '/'))
}

/// The part of `p` below `root`, without the separating `/`; `p` itself when
/// it is not below `root`.
pub open spec fn below_root(p: Seq<char>, root: Seq<char>) -> Seq<char> {
    if under_root(p, root) {
        if p.len() > root.len() && p[root.len() as int] == '/' {
            p.subrange(root.len() + 1int, p.len() as int)
        } else {
            p.subrange(root.len() as int, p.len() as int)
        }
    } else {
        p
    }
}

/// `listing` (the ignore-aware listing of the directory that holds `p`)
/// does not show `p`.
pub open spec fn ignored_by(p: Seq<char>, listing: Seq<String>) -> bool {
    forall|i: int| 0 <= i < listing.len() ==> (#[trigger] listing[i])@ != p
}

/// The exclusion decision for `p` below `root`, given the ignore-aware
/// listing of its parent directory. Lock files come first, then hidden
/// components below the root, then the ignore rules.
pub open spec fn excluded(p: Seq<char>, root: Seq<char>, listing: Seq<String>) -> bool {
    is_lock_path(p) || has_hidden_component(below_root(p, root)) || ignored_by(p, listing)
}

/// Whether `path` names a dependency lock file.
pub fn is_lock_file(path: &str) -> (r: bool)
    ensures
        r == is_lock_path(path@),
{
    let p = chars_of(path);
    match file_name_chars(&p) {
        Some(n) => {
            let lock = chars_of(".lock");
            let by_suffix = n.len() >= lock.len() && occurs_at_exec(
                &n,
                n.len() - lock.len(),
                &lock,
            );
            by_suffix || same_text(&n, "Cargo.lock") || same_text(&n, "package-lock.json")
                || same_text(&n, "yarn.lock") || same_text(&n, "Pipfile.lock") || same_text(
                &n,
                "poetry.lock",
            )
        },
        None => false,
    }
}

fn below_root_exec(p: &Vec<char>, root: &Vec<char>) -> (r: Vec<char>)
    ensures
        r@ == below_root(p@, root@),
{
    let under = root.len() <= p.len() && occurs_at_exec(p, 0, root) && (p.len() == root.len()
        || p[root.len()] == '/' || (root.len() > 0 && root[root.len() - 1] == '/'));
    if !under {
        return p.clone();
    }
    let start = if p.len() > root.len() && p[root.len()] == '/' {
        root.len() + 1
    } else {
        root.len()
    };
    let mut out: Vec<char> = Vec::new();
    let mut k = start;
    while k < p.len()
        invariant
            start <= k <= p@.len(),
            out@ == p@.subrange(start as int, k as int),
        decreases p@.len() - k,
    {
        out.push(p[k]);
        k = k + 1;
        assert(out@ =~= p@.subrange(start as int, k as int));
    }
    out
}

/// The path `path` relative to `root`: what lies below it, or `path` itself
/// when it is not below `root`.
pub fn relative_to_root(path: &str, root: &str) -> (r: String)
    ensures
        r@ == below_root(path@, root@),
{
    let p = chars_of(path);
    let q = chars_of(root);
    let rel = below_root_exec(&p, &q);
    string_of(&rel)
}

/// Whether some component of `path` below `root` is hidden (starts with `.`).
pub fn has_hidden_below_root(path: &str, root: &str) -> (r: bool)
    ensures
        r == has_hidden_component(below_root(path@, root@)),
{
    let p = chars_of(path);
    let q = chars_of(root);
    let rel = below_root_exec(&p, &q);
    has_hidden_component_exec(&rel)
}

/// Whether the ignore rules leave `file_path` out: true unless `listing`,
/// the ignore-aware listing of its parent directory, shows it exactly.
pub fn is_ignored_by_gitignore(file_path: &str, listing: &Vec<String>) -> (r: bool)
    ensures
        r == ignored_by(file_path@, listing@),
{
    let target = file_path.to_owned();
    let mut i: usize = 0;
    while i < listing.len()
        invariant
            i <= listing@.len(),
            target@ == file_path@,
            forall|j: int| 0 <= j < i ==> (#[trigger] listing@[j])@ != file_path@,
        decreases listing@.len() - i,
    {
        if listing[i] == target {
            return false;
        }
        i = i + 1;
    }
    true
}

/// Whether `path` below `root` is excluded, given `parent_listing`, the
/// ignore-aware listing of the directory that holds it.
pub fn is_excluded(path: &str, root: &str, parent_listing: &Vec<String>) -> (r: bool)
    ensures
        r == excluded(path@, root@, parent_listing@),
{
    if is_lock_file(path) {
        return true;
    }
    if has_hidden_below_root(path, root) {
        return true;
    }
    is_ignored_by_gitignore(path, parent_listing)
}

/// A path with a hidden component below the root is excluded, whatever its
/// own name is and whatever the ignore rules say.
pub proof fn lemma_hidden_component_excludes(
    p: Seq<char>,
    root: Seq<char>,
    listing: Seq<String>,
    i: int,
)
    requires
        hidden_at(below_root(p, root), i),
    ensures
        excluded(p, root, listing),
{
}

/// A path that the ignore-aware listing of its directory does not show (as
/// for a file that does not exist) is excluded: the filter fails closed.
pub proof fn lemma_unlisted_path_excluded(p: Seq<char>, root: Seq<char>, listing: Seq<String>)
    requires
        forall|i: int| 0 <= i < listing.len() ==> (#[trigger] listing[i])@ != p,
    ensures
        excluded(p, root, listing),
{
}

} // verus!

//! Paths as text: `/`-separated components, the final name and its extension.
use vstd::prelude::*;
use crate::text::{occurs_at, occurs_at_exec};

verus! {

/// Index just past the last `/` among the first `k` characters of `p` (0 if none).
pub open spec fn name_start(p: Seq<char>, k: int) -> int
    decreases k,
{
    if k <= 0 {
        0
    } else if p[k - 1] == '/' {
        k
    } else {
        name_start(p, k - 1)
    }
}

/// The text after the last `/` of `p`.
pub open spec fn base_name(p: Seq<char>) -> Seq<char> {
    p.subrange(name_start(p, p.len() as int), p.len() as int)
}

/// The final name of a path, absent when it is empty, `.` or `..`.
pub open spec fn file_name(p: Seq<char>) -> Option<Seq<char>> {
    let b = base_name(p);
    if b.len() == 0 || b == seq!['.'] || b == seq!['.', '.'] {
        None
    } else {
        Some(b)
    }
}

/// Index of the last `.` among the first `k` characters of `n` (-1 if none).
pub open spec fn last_dot(n: Seq<char>, k: int) -> int
    decreases k,
{
    if k <= 0 {
        -1
    } else if n[k - 1] == '.' {
        k - 1
    } else {
        last_dot(n, k - 1)
    }
}

/// The extension of a path: what follows the last `.` of its final name,
/// unless that `.` is the name's first character.
pub open spec fn extension(p: Seq<char>) -> Option<Seq<char>> {
    match file_name(p) {
        None => None,
        Some(n) => {
            let d = last_dot(n, n.len() as int);
            if d <= 0 {
                None
            } else {
                Some(n.subrange(d + 1, n.len() as int))
            }
        },
    }
}

/// Position `i` of `p` starts a component (the start of the text or just after a `/`).
pub open spec fn starts_component(p: Seq<char>, i: int) -> bool {
    0 <= i <= p.len() && (i == 0 || p[i - 1] == '/')
}

/// Position `i` of `p` ends a component (the end of the text or a `/`).
pub open spec fn ends_component(p: Seq<char>, i: int) -> bool {
    0 <= i <= p.len() && (i == p.len() || p[i] == '/')
}

/// Some component of `p` is exactly `c`.
pub open spec fn has_component(p: Seq<char>, c: Seq<char>) -> bool {
    exists|i: int|
        starts_component(p, i) && #[trigger] occurs_at(p, i, c) && ends_component(
            p,
            i + c.len(),
        )
}

/// A component of `p` starting at `i` begins with `.` and is neither `.` nor `..`.
pub open spec fn hidden_at(p: Seq<char>, i: int) -> bool {
    &&& starts_component(p, i)
    &&& i < p.len()
    &&& p[i] == '.'
    &&& !ends_component(p, i + 1)
    &&& !(p[i + 1] == '.' && ends_component(p, i + 2))
}

/// Some component of `p` is a hidden name.
pub open spec fn has_hidden_component(p: Seq<char>) -> bool {
    exists|i: int| #[trigger] hidden_at(p, i)
}

fn base_start(p: &Vec<char>) -> (r: usize)
    ensures
        r as int == name_start(p@, p@.len() as int),
        r <= p@.len(),
{
    let mut k = p.len();
    while k > 0
        invariant
            k <= p@.len(),
            name_start(p@, k as int) == name_start(p@, p@.len() as int),
        decreases k,
    {
        if p[k - 1] == '/' {
            return k;
        }
        k = k - 1;
    }
    0
}

/// The final name of the path `p`, as characters.
pub fn file_name_chars(p: &Vec<char>) -> (r: Option<Vec<char>>)
    ensures
        match r {
            Some(v) => file_name(p@) == Some(v@),
            None => file_name(p@) is None,
        },
{
    let start = base_start(p);
    let mut out: Vec<char> = Vec::new();
    let mut k = start;
    while k < p.len()
        invariant
            start <= k <= p@.len(),
            out@ == p@.subrange(start as int, k as int),
        decreases p@.len() - k,
    {
        out.push(p[k]);
        k = k + 1;
        assert(out@ =~= p@.subrange(start as int, k as int));
    }
    assert(out@ == base_name(p@));
    if out.len() == 0 || (out.len() == 1 && out[0] == '.') || (out.len() == 2 && out[0] == '.'
        && out[1] == '.') {
        proof {
            if out@.len() == 1 {
                assert(out@ =~= seq!['.']);
            }
            if out@.len() == 2 {
                assert(out@ =~= seq!['.', '.']);
            }
        }
        None
    } else {
        Some(out)
    }
}

/// The extension of the path `p`, as characters.
pub fn extension_chars(p: &Vec<char>) -> (r: Option<Vec<char>>)
    ensures
        match r {
            Some(v) => extension(p@) == Some(v@),
            None => extension(p@) is None,
        },
{
    let n = match file_name_chars(p) {
        None => return None,
        Some(n) => n,
    };
    let mut k = n.len();
    while k > 0 && n[k - 1] != '.'
        invariant
            k <= n@.len(),
            last_dot(n@, k as int) == last_dot(n@, n@.len() as int),
        decreases k,
    {
        k = k - 1;
    }
    if k <= 1 {
        return None;
    }
    let d = k - 1;
    let mut out: Vec<char> = Vec::new();
    let mut j = k;
    while j < n.len()
        invariant
            k <= j <= n@.len(),
            out@ == n@.subrange(k as int, j as int),
        decreases n@.len() - j,
    {
        out.push(n[j]);
        j = j + 1;
        assert(out@ =~= n@.subrange(k as int, j as int));
    }
    Some(out)
}

/// Whether some component of `p` is exactly `c`.
pub fn has_component_exec(p: &Vec<char>, c: &Vec<char>) -> (r: bool)
    ensures
        r == has_component(p@, c@),
{
    let mut i: usize = 0;
    while i < p.len()
        invariant
            i <= p@.len(),
            forall|j: int|
                0 <= j < i ==> !(starts_component(p@, j) && #[trigger] occurs_at(p@, j, c@)
                    && ends_component(p@, j + c@.len())),
        decreases p@.len() - i,
    {
        if (i == 0 || p[i - 1] == '/') && occurs_at_exec(p, i, c) && (i + c.len() == p.len()
            || p[i + c.len()] == '/') {
            return true;
        }
        i = i + 1;
    }
    if (i == 0 || p[i - 1] == '/') && occurs_at_exec(p, i, c) && i + c.len() == p.len() {
        return true;
    }
    assert forall|j: int|
        starts_component(p@, j) && #[trigger] occurs_at(p@, j, c@) implies !ends_component(
        p@,
        j + c@.len(),
    ) by {
        assert(0 <= j <= i);
    }
    false
}

/// Whether some component of `p` starts with `.` and is neither `.` nor `..`.
pub fn has_hidden_component_exec(p: &Vec<char>) -> (r: bool)
    ensures
        r == has_hidden_component(p@),
{
    let mut i: usize = 0;
    while i < p.len()
        invariant
            i <= p@.len(),
            forall|j: int| 0 <= j < i ==> !#[trigger] hidden_at(p@, j),
        decreases p@.len() - i,
    {
        if (i == 0 || p[i - 1] == '/') && p[i] == '.' {
            let single = i + 1 == p.len() || p[i + 1] == '/';
            let double = !single && p[i + 1] == '.' && (i + 2 == p.len() || p[i + 2] == '/');
            if !single && !double {
                assert(hidden_at(p@, i as int));
                return true;
            }
        }
        i = i + 1;
    }
    false
}

} // verus!

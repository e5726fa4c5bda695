//! The directory-tree listing: which entries of a directory are shown and in
//! what order, the text of each line, and the running counts.
use vstd::prelude::*;
use crate::filter::{excluded, is_excluded};
use crate::order::{key_listed, lex_less, lex_lt, sorted_positions};
use crate::select::{admitted, Candidate};
use crate::text::{chars_of, string_of};

verus! {

/// An entry read from a directory.
pub struct DirEntryInfo {
    /// The entry's own name.
    pub name: String,
    /// The entry's full path.
    pub path: String,
    /// The entry is a directory.
    pub is_dir: bool,
}

/// The key that orders a directory's entries for display: directories
/// before files, and by name within each group.
pub open spec fn display_key(e: DirEntryInfo) -> Seq<char> {
    (if e.is_dir {
        seq!['0']
    } else {
        seq!['1']
    }) + e.name@
}

/// The tree shows `e` when it is not excluded, given the ignore-aware listing
/// of the directory that holds it.
pub open spec fn shown(e: DirEntryInfo, root: Seq<char>, listing: Seq<String>) -> bool {
    !excluded(e.path@, root, listing)
}

/// `a` is displayed before `b`: directories first, then by name.
pub fn tree_entry_before(a: &DirEntryInfo, b: &DirEntryInfo) -> (r: bool)
    ensures
        r == lex_lt(display_key(*a), display_key(*b)),
{
    let ka = display_key_exec(a);
    let kb = display_key_exec(b);
    lex_less(&ka, &kb)
}

fn display_key_exec(e: &DirEntryInfo) -> (r: Vec<char>)
    ensures
        r@ == display_key(*e),
{
    let mut k: Vec<char> = if e.is_dir {
        vec!['0']
    } else {
        vec!['1']
    };
    let name = chars_of(e.name.as_str());
    let ghost k0 = k@;
    let mut i: usize = 0;
    while i < name.len()
        invariant
            i <= name@.len(),
            name@ == e.name@,
            k0 == (if e.is_dir {
                seq!['0']
            } else {
                seq!['1']
            }),
            k@ == k0 + name@.take(i as int),
        decreases name@.len() - i,
    {
        k.push(name[i]);
        i = i + 1;
        assert(k@ =~= k0 + name@.take(i as int));
    }
    assert(name@.take(name@.len() as int) =~= name@);
    k
}

/// The positions of the shown entries of a directory, in display order:
/// only shown entries, one for each display key among them, with keys
/// strictly increasing.
pub fn arrange_entries(entries: &Vec<DirEntryInfo>, root: &str, listing: &Vec<String>) -> (r: Vec<
    usize,
>)
    ensures
        forall|a: int|
            0 <= a < r@.len() ==> #[trigger] r@[a] < entries@.len() && shown(
                entries@[r@[a] as int],
                root@,
                listing@,
            ),
        forall|a: int, b: int|
            0 <= a < b < r@.len() ==> lex_lt(
                display_key(entries@[#[trigger] r@[a] as int]),
                display_key(entries@[#[trigger] r@[b] as int]),
            ),
        forall|j: int|
            0 <= j < entries@.len() && shown(#[trigger] entries@[j], root@, listing@) ==> exists|
                a: int,
            |
                0 <= a < r@.len() && display_key(entries@[r@[a] as int]) == display_key(
                    entries@[j],
                ),
{
    let mut keys: Vec<Vec<char>> = Vec::new();
    let mut kept: Vec<usize> = Vec::new();
    let mut i: usize = 0;
    while i < entries.len()
        invariant
            i <= entries@.len(),
            keys@.len() == kept@.len(),
            forall|a: int|
                0 <= a < kept@.len() ==> #[trigger] kept@[a] < i && shown(
                    entries@[kept@[a] as int],
                    root@,
                    listing@,
                ) && keys@[a]@ == display_key(entries@[kept@[a] as int]),
            forall|j: int|
                0 <= j < i && shown(#[trigger] entries@[j], root@, listing@) ==> exists|a: int|
                    0 <= a < kept@.len() && kept@[a] == j,
        decreases entries@.len() - i,
    {
        let ghost old_kept = kept@;
        let show = !is_excluded(entries[i].path.as_str(), root, listing);
        if show {
            keys.push(display_key_exec(&entries[i]));
            kept.push(i);
        }
        assert forall|j: int|
            0 <= j < i + 1 && shown(#[trigger] entries@[j], root@, listing@) implies exists|a: int|
            0 <= a < kept@.len() && kept@[a] == j by {
            if j < i {
                let a0 = choose|a0: int| 0 <= a0 < old_kept.len() && old_kept[a0] == j;
                assert(kept@[a0] == j);
            } else {
                assert(kept@[kept@.len() - 1] == i);
            }
        }
        i = i + 1;
    }
    let pos = sorted_positions(&keys);
    let mut out: Vec<usize> = Vec::new();
    let mut a: usize = 0;
    while a < pos.len()
        invariant
            a <= pos@.len(),
            out@.len() == a,
            keys@.len() == kept@.len(),
            forall|j: int| 0 <= j < pos@.len() ==> #[trigger] pos@[j] < keys@.len(),
            forall|a: int|
                0 <= a < kept@.len() ==> #[trigger] kept@[a] < entries@.len() && shown(
                    entries@[kept@[a] as int],
                    root@,
                    listing@,
                ) && keys@[a]@ == display_key(entries@[kept@[a] as int]),
            forall|b: int| 0 <= b < a ==> #[trigger] out@[b] == kept@[pos@[b] as int],
        decreases pos@.len() - a,
    {
        out.push(kept[pos[a]]);
        a = a + 1;
    }
    assert forall|x: int, y: int| 0 <= x < y < out@.len() implies lex_lt(
        display_key(entries@[#[trigger] out@[x] as int]),
        display_key(entries@[#[trigger] out@[y] as int]),
    ) by {
        assert(out@[x] == kept@[pos@[x] as int]);
        assert(out@[y] == kept@[pos@[y] as int]);
    }
    assert forall|j: int|
        0 <= j < entries@.len() && shown(#[trigger] entries@[j], root@, listing@) implies exists|
        b: int,
    | 0 <= b < out@.len() && display_key(entries@[out@[b] as int]) == display_key(entries@[j]) by {
        let a0 = choose|a0: int| 0 <= a0 < kept@.len() && kept@[a0] == j;
        assert(key_listed(keys@, pos@, keys@[a0]@));
        let b = choose|b: int|
            0 <= b < pos@.len() && (#[trigger] keys@[pos@[b] as int])@ == keys@[a0]@;
        assert(out@[b] == kept@[pos@[b] as int]);
    }
    out
}

/// The connector drawn before an entry: the last entry of a level closes the
/// branch.
pub open spec fn connector(is_last: bool) -> Seq<char> {
    if is_last {
        "└── "@
    } else {
        "├── "@
    }
}

/// What the entries below an entry are indented with: a blank column below
/// the last entry of a level, a vertical bar below the others.
pub open spec fn indent(is_last: bool) -> Seq<char> {
    if is_last {
        "    "@
    } else {
        "│   "@
    }
}

/// The line that shows an entry named `name` after `prefix`.
pub fn entry_line(prefix: &str, is_last: bool, name: &str) -> (r: String)
    ensures
        r@ == prefix@ + connector(is_last) + name@,
{
    let mut line = prefix.to_owned();
    line.append(if is_last {
        "└── "
    } else {
        "├── "
    });
    line.append(name);
    line
}

/// The prefix of the lines below an entry drawn after `prefix`.
pub fn child_prefix(prefix: &str, is_last: bool) -> (r: String)
    ensures
        r@ == prefix@ + indent(is_last),
{
    let mut p = prefix.to_owned();
    p.append(if is_last {
        "    "
    } else {
        "│   "
    });
    p
}

/// The listing as it grows: its lines and the directories and files counted
/// so far (the root counts as a directory).
pub struct TreeListing {
    pub lines: Vec<String>,
    pub directories: usize,
    pub files: usize,
}

impl TreeListing {
    /// A listing of the root alone: the line `.` and one directory.
    pub fn new() -> (r: TreeListing)
        ensures
            r.lines@.len() == 1,
            r.lines@[0]@ == "."@,
            r.directories == 1,
            r.files == 0,
    {
        let mut lines: Vec<String> = Vec::new();
        lines.push(".".to_owned());
        TreeListing { lines, directories: 1, files: 0 }
    }

    /// Adds the line of a subdirectory and counts it.
    pub fn add_directory(&mut self, prefix: &str, is_last: bool, name: &str)
        requires
            old(self).directories < usize::MAX,
        ensures
            final(self).lines@.len() == old(self).lines@.len() + 1,
            forall|i: int|
                0 <= i < old(self).lines@.len() ==> final(self).lines@[i] == old(self).lines@[i],
            final(self).lines@.last()@ == prefix@ + connector(is_last) + name@,
            final(self).directories == old(self).directories + 1,
            final(self).files == old(self).files,
    {
        let line = entry_line(prefix, is_last, name);
        self.lines.push(line);
        self.directories = self.directories + 1;
    }

    /// Adds the line of a file and counts it.
    pub fn add_file(&mut self, prefix: &str, is_last: bool, name: &str)
        requires
            old(self).files < usize::MAX,
        ensures
            final(self).lines@.len() == old(self).lines@.len() + 1,
            forall|i: int|
                0 <= i < old(self).lines@.len() ==> final(self).lines@[i] == old(self).lines@[i],
            final(self).lines@.last()@ == prefix@ + connector(is_last) + name@,
            final(self).directories == old(self).directories,
            final(self).files == old(self).files + 1,
    {
        let line = entry_line(prefix, is_last, name);
        self.lines.push(line);
        self.files = self.files + 1;
    }
    /// Adds the line of the entry at place `k` of a directory's display
    /// order `order`, drawn after `prefix`, and counts it. Only the last
    /// place gets the closing connector. For a directory, whose own entries
    /// follow next, returns the prefix of their lines.
    pub fn add_entry(
        &mut self,
        entries: &Vec<DirEntryInfo>,
        order: &Vec<usize>,
        k: usize,
        prefix: &str,
    ) -> (below: Option<String>)
        requires
            k < order@.len(),
            order@[k as int] < entries@.len(),
            old(self).directories < usize::MAX,
            old(self).files < usize::MAX,
        ensures
            below is Some <==> entries@[order@[k as int] as int].is_dir,
            below matches Some(p) ==> p@ == prefix@ + indent(k + 1 == order@.len()),
            final(self).lines@.len() == old(self).lines@.len() + 1,
            forall|i: int|
                0 <= i < old(self).lines@.len() ==> final(self).lines@[i] == old(self).lines@[i],
            final(self).lines@.last()@ == prefix@ + connector(k + 1 == order@.len())
                + entries@[order@[k as int] as int].name@,
            final(self).directories == old(self).directories + if below is Some {
                1usize
            } else {
                0usize
            },
            final(self).files == old(self).files + if below is Some {
                0usize
            } else {
                1usize
            },
    {
        let e = &entries[order[k]];
        let last = k == order.len() - 1;
        if e.is_dir {
            self.add_directory(prefix, last, e.name.as_str());
            Some(child_prefix(prefix, last))
        } else {
            self.add_file(prefix, last, e.name.as_str());
            None
        }
    }
}


/// The decimal digit for `d` (taken modulo ten).
pub open spec fn digit_char(d: nat) -> char {
    let k = d % 10;
    if k == 0 {
        '0'
    } else if k == 1 {
        '1'
    } else if k == 2 {
        '2'
    } else if k == 3 {
        '3'
    } else if k == 4 {
        '4'
    } else if k == 5 {
        '5'
    } else if k == 6 {
        '6'
    } else if k == 7 {
        '7'
    } else if k == 8 {
        '8'
    } else {
        '9'
    }
}

/// `n` written in decimal, without leading zeros.
pub open spec fn decimal(n: nat) -> Seq<char>
    decreases n,
{
    if n < 10 {
        seq![digit_char(n)]
    } else {
        decimal(n / 10).push(digit_char(n))
    }
}

fn push_decimal(n: usize, out: &mut Vec<char>)
    ensures
        final(out)@ == old(out)@ + decimal(n as nat),
    decreases n,
{
    if n >= 10 {
        push_decimal(n / 10, out);
    }
    let d = n % 10;
    let c = if d == 0 {
        '0'
    } else if d == 1 {
        '1'
    } else if d == 2 {
        '2'
    } else if d == 3 {
        '3'
    } else if d == 4 {
        '4'
    } else if d == 5 {
        '5'
    } else if d == 6 {
        '6'
    } else if d == 7 {
        '7'
    } else if d == 8 {
        '8'
    } else {
        '9'
    };
    out.push(c);
    assert(c == digit_char(n as nat));
    assert(final(out)@ =~= old(out)@ + decimal(n as nat));
}

/// `n` written in decimal.
pub fn decimal_string(n: usize) -> (r: String)
    ensures
        r@ == decimal(n as nat),
{
    let mut v: Vec<char> = Vec::new();
    push_decimal(n, &mut v);
    assert(v@ =~= decimal(n as nat));
    string_of(&v)
}

/// The lines of `lines`, each ended by a newline.
pub open spec fn lines_text(lines: Seq<String>) -> Seq<char>
    decreases lines.len(),
{
    if lines.len() == 0 {
        Seq::empty()
    } else {
        lines_text(lines.drop_last()) + lines.last()@ + "\n"@
    }
}

/// The text of the directory-structure block: a heading, a fenced `text`
/// block holding the lines, a blank line and the counts line.
pub open spec fn tree_block_text(t: TreeListing) -> Seq<char> {
    "Directory Structure:\n\n```text\n"@ + lines_text(t.lines@) + "\n"@ + decimal(
        t.directories as nat,
    ) + " directories, "@ + decimal(t.files as nat) + " files\n```\n"@
}

impl TreeListing {
    /// The directory-structure block for this listing, ready to print.
    pub fn block(&self) -> (r: String)
        ensures
            r@ == tree_block_text(*self),
    {
        let mut out = String::new();
        out.append("Directory Structure:\n\n```text\n");
        let mut i: usize = 0;
        while i < self.lines.len()
            invariant
                i <= self.lines@.len(),
                out@ == "Directory Structure:\n\n```text\n"@ + lines_text(
                    self.lines@.take(i as int),
                ),
            decreases self.lines@.len() - i,
        {
            out.append(self.lines[i].as_str());
            out.append("\n");
            assert(self.lines@.take(i + 1).drop_last() =~= self.lines@.take(i as int));
            i = i + 1;
        }
        assert(self.lines@.take(self.lines@.len() as int) =~= self.lines@);
        out.append("\n");
        out.append(decimal_string(self.directories).as_str());
        out.append(" directories, ");
        out.append(decimal_string(self.files).as_str());
        out.append(" files\n```\n");
        out
    }
}

/// The tree and the selection apply the same exclusion: a file that the
/// tree shows is one that the selection admits, and the other way round,
/// given the same path and the same listing of its directory.
pub proof fn lemma_tree_and_selection_agree(
    e: DirEntryInfo,
    c: Candidate,
    root: Seq<char>,
    listing: Seq<String>,
)
    requires
        !e.is_dir,
        c.is_file,
        c.path@ == e.path@,
        c.parent_listing@ == listing,
    ensures
        shown(e, root, listing) == admitted(c, root, false),
{
}

} // verus!

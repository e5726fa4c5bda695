//! Choosing the files to render: explicitly named files or files whose path
//! below the root matches a glob pattern, always through the exclusion rules,
//! and always sorted without duplicates.
use vstd::prelude::*;
use crate::filter::{below_root, excluded, is_excluded, relative_to_root};
use crate::order::{key_listed, key_sorted, sorted_positions};
use crate::strip::{ends_with, is_rust_test_file, is_rust_test_path};
use crate::paths::file_name;
use crate::text::chars_of;

verus! {

/// Whether the glob crate accepts `pattern` as a pattern.
pub uninterp spec fn glob_accepts(pattern: Seq<char>) -> bool;

/// Whether the glob pattern `pattern` matches the text `path`.
pub uninterp spec fn glob_matches(pattern: Seq<char>, path: Seq<char>) -> bool;

/// `glob::Pattern`, a compiled pattern, carried as an opaque value.
#[verifier::external_type_specification]
#[verifier::external_body]
pub struct ExPattern(glob::Pattern);

/// `glob::PatternError`, why a pattern was refused, carried as an opaque value.
#[verifier::external_type_specification]
#[verifier::external_body]
pub struct ExPatternError(glob::PatternError);

/// A compiled glob pattern together with the text it was compiled from.
pub struct GlobPattern {
    text: String,
    compiled: glob::Pattern,
}

/// Compiles `text` as a glob pattern.
///
/// Relies on `glob::Pattern::new`: whether a pattern is accepted depends on
/// its text alone.
#[verifier::external_body]
fn compile_glob(text: &str) -> (r: Result<GlobPattern, glob::PatternError>)
    ensures
        r is Ok <==> glob_accepts(text@),
        r matches Ok(g) ==> g.text() == text@,
{
    glob::Pattern::new(text).map(|compiled| GlobPattern { text: text.to_owned(), compiled })
}

impl GlobPattern {
    /// The text the pattern was compiled from.
    pub closed spec fn text(&self) -> Seq<char> {
        self.text@
    }

    /// The text the pattern was compiled from.
    pub fn as_str(&self) -> (r: &str)
        ensures
            r@ == self.text(),
    {
        self.text.as_str()
    }

    /// Whether the pattern matches `path` (default match options: `*` and
    /// `?` may match `/`, case matters).
    ///
    /// Relies on `glob::Pattern::matches`, whose answer depends on the
    /// pattern's text and `path` alone.
    #[verifier::external_body]
    pub(crate) fn matches(&self, path: &str) -> (r: bool)
        ensures
            r == glob_matches(self.text(), path@),
    {
        self.compiled.matches(path)
    }
}

/// A pattern that the glob syntax refuses, with the reason.
pub struct InvalidPattern {
    pub pattern: String,
    pub reason: glob::PatternError,
}

/// The usable patterns of a configuration and the refused ones.
pub struct PatternSet {
    pub patterns: Vec<GlobPattern>,
    pub rejected: Vec<InvalidPattern>,
}

/// The texts of a sequence of strings.
pub open spec fn views(s: Seq<String>) -> Seq<Seq<char>> {
    s.map_values(|x: String| x@)
}

/// The texts of a sequence of patterns.
pub open spec fn pattern_texts(s: Seq<GlobPattern>) -> Seq<Seq<char>> {
    s.map_values(|g: GlobPattern| g.text())
}

/// The texts of `texts` that the glob syntax accepts (`keep`) or refuses
/// (`!keep`), in their order.
pub open spec fn sift(texts: Seq<Seq<char>>, keep: bool) -> Seq<Seq<char>>
    decreases texts.len(),
{
    if texts.len() == 0 {
        Seq::empty()
    } else {
        let rest = sift(texts.drop_last(), keep);
        if glob_accepts(texts.last()) == keep {
            rest.push(texts.last())
        } else {
            rest
        }
    }
}

/// Compiles the configured patterns. A refused pattern is dropped and
/// reported, unless it is the only pattern given: then the configuration is
/// unusable and that pattern is the error.
pub fn compile_patterns(texts: &Vec<String>) -> (r: Result<PatternSet, InvalidPattern>)
    ensures
        r is Err <==> (texts@.len() == 1 && !glob_accepts(texts@[0]@)),
        r matches Err(e) ==> e.pattern@ == texts@[0]@,
        r matches Ok(set) ==> pattern_texts(set.patterns@) == sift(views(texts@), true)
            && views(set.rejected@.map_values(|e: InvalidPattern| e.pattern)) == sift(
            views(texts@),
            false,
        ),
{
    let mut patterns: Vec<GlobPattern> = Vec::new();
    let mut rejected: Vec<InvalidPattern> = Vec::new();
    let mut i: usize = 0;
    while i < texts.len()
        invariant
            i <= texts@.len(),
            pattern_texts(patterns@) == sift(views(texts@.take(i as int)), true),
            views(rejected@.map_values(|e: InvalidPattern| e.pattern)) == sift(
                views(texts@.take(i as int)),
                false,
            ),
        decreases texts@.len() - i,
    {
        let ghost before = views(texts@.take(i as int));
        assert(views(texts@.take(i + 1)).drop_last() =~= before);
        assert(views(texts@.take(i + 1)).last() == texts@[i as int]@);
        match compile_glob(texts[i].as_str()) {
            Ok(g) => {
                patterns.push(g);
                assert(pattern_texts(patterns@) =~= sift(before, true).push(texts@[i as int]@));
                assert(views(rejected@.map_values(|e: InvalidPattern| e.pattern)) =~= sift(
                    views(texts@.take(i + 1)),
                    false,
                ));
            },
            Err(reason) => {
                rejected.push(InvalidPattern { pattern: texts[i].clone(), reason });
                assert(views(rejected@.map_values(|e: InvalidPattern| e.pattern)) =~= sift(
                    before,
                    false,
                ).push(texts@[i as int]@));
                assert(pattern_texts(patterns@) =~= sift(views(texts@.take(i + 1)), true));
            },
        }
        i = i + 1;
    }
    assert(texts@.take(texts@.len() as int) =~= texts@);
    proof {
        if texts@.len() == 1 {
            assert(views(texts@).drop_last() =~= Seq::<Seq<char>>::empty());
            assert(views(texts@).last() == texts@[0]@);
            assert(sift(Seq::<Seq<char>>::empty(), true) =~= Seq::<Seq<char>>::empty());
            assert(sift(Seq::<Seq<char>>::empty(), false) =~= Seq::<Seq<char>>::empty());
            assert(pattern_texts(patterns@).len() == patterns@.len());
        }
    }
    if texts.len() == 1 && patterns.len() == 0 {
        let ghost names = views(rejected@.map_values(|e: InvalidPattern| e.pattern));
        assert(names.len() == 1 && names[0] == texts@[0]@);
        assert(rejected@.len() == 1);
        assert(names[0] == rejected@[0].pattern@);
        let e = rejected.pop().unwrap();
        return Err(e);
    }
    Ok(PatternSet { patterns, rejected })
}

/// A file met while walking the root, or named in the configuration.
pub struct Candidate {
    /// The path as found (below the root, or resolved against it).
    pub path: String,
    /// The path exists and is a regular file.
    pub is_file: bool,
    /// The ignore-aware listing of the directory that holds the path.
    pub parent_listing: Vec<String>,
}

/// A candidate is admitted: it is a regular file, not excluded, and not a
/// Rust test file when tests are ignored.
pub open spec fn admitted(c: Candidate, root: Seq<char>, ignore_tests: bool) -> bool {
    &&& c.is_file
    &&& !excluded(c.path@, root, c.parent_listing@)
    &&& !(ignore_tests && is_rust_test_path(c.path@))
}

/// Some pattern of `patterns` matches `rel`.
pub open spec fn any_match(patterns: Seq<Seq<char>>, rel: Seq<char>) -> bool {
    exists|i: int| 0 <= i < patterns.len() && glob_matches(#[trigger] patterns[i], rel)
}

/// `p` is the path of an admitted candidate.
pub open spec fn chosen_explicitly(
    cands: Seq<Candidate>,
    root: Seq<char>,
    ignore_tests: bool,
    p: Seq<char>,
) -> bool {
    exists|i: int|
        0 <= i < cands.len() && admitted(#[trigger] cands[i], root, ignore_tests) && cands[i].path@
            == p
}

/// `p` is the path of an admitted candidate whose path below the root some
/// pattern matches.
pub open spec fn chosen_by_patterns(
    cands: Seq<Candidate>,
    root: Seq<char>,
    patterns: Seq<Seq<char>>,
    ignore_tests: bool,
    p: Seq<char>,
) -> bool {
    exists|i: int|
        0 <= i < cands.len() && admitted(#[trigger] cands[i], root, ignore_tests) && any_match(
            patterns,
            below_root(cands[i].path@, root),
        ) && cands[i].path@ == p
}

/// `r` lists exactly the texts that `chosen` holds, in strictly increasing order.
pub open spec fn sorted_set(r: Seq<Seq<char>>, chosen: spec_fn(Seq<char>) -> bool) -> bool {
    &&& key_sorted(r, |x: Seq<char>| x)
    &&& forall|p: Seq<char>| r.contains(p) <==> chosen(p)
}

/// The paths of `paths`, each once, in increasing order.
pub fn sorted_unique(paths: &Vec<String>) -> (r: Vec<String>)
    ensures
        sorted_set(views(r@), |p: Seq<char>| views(paths@).contains(p)),
{
    let mut keys: Vec<Vec<char>> = Vec::new();
    let mut i: usize = 0;
    while i < paths.len()
        invariant
            i <= paths@.len(),
            keys@.len() == i,
            forall|j: int| 0 <= j < i ==> (#[trigger] keys@[j])@ == paths@[j]@,
        decreases paths@.len() - i,
    {
        keys.push(chars_of(paths[i].as_str()));
        i = i + 1;
    }
    let pos = sorted_positions(&keys);
    let mut out: Vec<String> = Vec::new();
    let mut a: usize = 0;
    while a < pos.len()
        invariant
            a <= pos@.len(),
            out@.len() == a,
            keys@.len() == paths@.len(),
            forall|j: int| 0 <= j < pos@.len() ==> #[trigger] pos@[j] < keys@.len(),
            forall|b: int| 0 <= b < a ==> (#[trigger] out@[b])@ == paths@[pos@[b] as int]@,
        decreases pos@.len() - a,
    {
        out.push(paths[pos[a]].clone());
        a = a + 1;
    }
    let ghost r = views(out@);
    assert forall|x: int, y: int| 0 <= x < y < r.len() implies crate::order::lex_lt(
        #[trigger] r[x],
        #[trigger] r[y],
    ) by {
        assert(keys@[pos@[x] as int]@ == r[x]);
        assert(keys@[pos@[y] as int]@ == r[y]);
    }
    assert forall|p: Seq<char>| r.contains(p) implies views(paths@).contains(p) by {
        let b = choose|b: int| 0 <= b < r.len() && r[b] == p;
        assert(views(paths@)[pos@[b] as int] == p);
    }
    assert forall|p: Seq<char>| views(paths@).contains(p) implies r.contains(p) by {
        let j = choose|j: int| 0 <= j < paths@.len() && views(paths@)[j] == p;
        assert(key_listed(keys@, pos@, keys@[j]@));
        let b = choose|b: int|
            0 <= b < pos@.len() && (#[trigger] keys@[pos@[b] as int])@ == keys@[j]@;
        assert(r[b] == p);
    }
    out
}

/// Whether `c` is admitted below `root`.
pub fn admits(c: &Candidate, root: &str, ignore_tests: bool) -> (r: bool)
    ensures
        r == admitted(*c, root@, ignore_tests),
{
    c.is_file && !is_excluded(c.path.as_str(), root, &c.parent_listing) && !(ignore_tests
        && is_rust_test_file(c.path.as_str()))
}

/// Whether some pattern of `patterns` matches `rel`.
pub fn any_pattern_matches(patterns: &Vec<GlobPattern>, rel: &str) -> (r: bool)
    ensures
        r == any_match(pattern_texts(patterns@), rel@),
{
    let mut i: usize = 0;
    while i < patterns.len()
        invariant
            i <= patterns@.len(),
            forall|j: int|
                0 <= j < i ==> !glob_matches(#[trigger] pattern_texts(patterns@)[j], rel@),
        decreases patterns@.len() - i,
    {
        if patterns[i].matches(rel) {
            assert(glob_matches(pattern_texts(patterns@)[i as int], rel@));
            return true;
        }
        i = i + 1;
    }
    false
}

/// `p` is the path of an admitted candidate that `wanted` marks.
pub open spec fn chosen_wanted(
    cands: Seq<Candidate>,
    root: Seq<char>,
    ignore_tests: bool,
    wanted: Seq<bool>,
    p: Seq<char>,
) -> bool {
    exists|i: int|
        0 <= i < cands.len() && i < wanted.len() && wanted[i] && admitted(
            #[trigger] cands[i],
            root,
            ignore_tests,
        ) && cands[i].path@ == p
}

/// The admitted candidates that `wanted` marks (a missing mark counts as
/// unmarked): their paths, each once, in increasing order.
pub fn select_wanted(
    cands: &Vec<Candidate>,
    root: &str,
    ignore_tests: bool,
    wanted: &Vec<bool>,
) -> (r: Vec<String>)
    ensures
        sorted_set(
            views(r@),
            |p: Seq<char>| chosen_wanted(cands@, root@, ignore_tests, wanted@, p),
        ),
{
    let mut chosen: Vec<String> = Vec::new();
    let mut i: usize = 0;
    while i < cands.len()
        invariant
            i <= cands@.len(),
            forall|p: Seq<char>|
                views(chosen@).contains(p) <==> chosen_wanted(
                    cands@.take(i as int),
                    root@,
                    ignore_tests,
                    wanted@,
                    p,
                ),
        decreases cands@.len() - i,
    {
        let c = &cands[i];
        let ghost old_chosen = views(chosen@);
        let hit = i < wanted.len() && wanted[i] && admits(c, root, ignore_tests);
        if hit {
            chosen.push(c.path.clone());
        }
        assert forall|p: Seq<char>|
            views(chosen@).contains(p) <==> chosen_wanted(
                cands@.take(i + 1),
                root@,
                ignore_tests,
                wanted@,
                p,
            ) by {
            let t = cands@.take(i + 1);
            if views(chosen@).contains(p) {
                let b = choose|b: int| 0 <= b < views(chosen@).len() && views(chosen@)[b] == p;
                if b < old_chosen.len() {
                    assert(old_chosen[b] == p);
                    assert(old_chosen.contains(p));
                    assert(chosen_wanted(cands@.take(i as int), root@, ignore_tests, wanted@, p));
                    let j = choose|j: int|
                        0 <= j < i && j < wanted@.len() && wanted@[j] && admitted(
                            #[trigger] cands@.take(i as int)[j],
                            root@,
                            ignore_tests,
                        ) && cands@.take(i as int)[j].path@ == p;
                    assert(t[j] == cands@[j]);
                } else {
                    assert(t[i as int] == cands@[i as int]);
                }
            }
            if chosen_wanted(t, root@, ignore_tests, wanted@, p) {
                let j = choose|j: int|
                    0 <= j < t.len() && j < wanted@.len() && wanted@[j] && admitted(
                        #[trigger] t[j],
                        root@,
                        ignore_tests,
                    ) && t[j].path@ == p;
                if j < i {
                    assert(cands@.take(i as int)[j] == t[j]);
                    assert(admitted(cands@.take(i as int)[j], root@, ignore_tests));
                    assert(chosen_wanted(cands@.take(i as int), root@, ignore_tests, wanted@, p));
                    assert(old_chosen.contains(p));
                    let b = choose|b: int| 0 <= b < old_chosen.len() && old_chosen[b] == p;
                    assert(views(chosen@)[b] == p);
                } else {
                    assert(views(chosen@)[views(chosen@).len() - 1] == p);
                }
            }
        }
        i = i + 1;
    }
    assert(cands@.take(cands@.len() as int) =~= cands@);
    sorted_unique(&chosen)
}

/// The candidates whose path some pattern matches below the root, among the
/// admitted ones: their paths, each once, in increasing order.
pub fn select_matching(
    cands: &Vec<Candidate>,
    root: &str,
    patterns: &Vec<GlobPattern>,
    ignore_tests: bool,
) -> (r: Vec<String>)
    ensures
        sorted_set(
            views(r@),
            |p: Seq<char>|
                chosen_by_patterns(cands@, root@, pattern_texts(patterns@), ignore_tests, p),
        ),
{
    let ghost pats = pattern_texts(patterns@);
    let mut hits: Vec<bool> = Vec::new();
    let mut i: usize = 0;
    while i < cands.len()
        invariant
            i <= cands@.len(),
            pats == pattern_texts(patterns@),
            hits@.len() == i,
            forall|j: int|
                0 <= j < i ==> #[trigger] hits@[j] == any_match(
                    pats,
                    below_root(cands@[j].path@, root@),
                ),
        decreases cands@.len() - i,
    {
        let rel = relative_to_root(cands[i].path.as_str(), root);
        hits.push(any_pattern_matches(patterns, rel.as_str()));
        i = i + 1;
    }
    let r = select_wanted(cands, root, ignore_tests, &hits);
    assert forall|p: Seq<char>|
        chosen_wanted(cands@, root@, ignore_tests, hits@, p) <==> chosen_by_patterns(
            cands@,
            root@,
            pats,
            ignore_tests,
            p,
        ) by {
        if chosen_wanted(cands@, root@, ignore_tests, hits@, p) {
            let j = choose|j: int|
                0 <= j < cands@.len() && j < hits@.len() && hits@[j] && admitted(
                    #[trigger] cands@[j],
                    root@,
                    ignore_tests,
                ) && cands@[j].path@ == p;
            assert(hits@[j]);
        }
        if chosen_by_patterns(cands@, root@, pats, ignore_tests, p) {
            let j = choose|j: int|
                0 <= j < cands@.len() && admitted(#[trigger] cands@[j], root@, ignore_tests)
                    && any_match(pats, below_root(cands@[j].path@, root@)) && cands@[j].path@ == p;
            assert(hits@[j]);
        }
    }
    r
}

/// The paths of the candidates that are not regular files, in their order.
pub open spec fn invalid_paths(cands: Seq<Candidate>) -> Seq<Seq<char>>
    decreases cands.len(),
{
    if cands.len() == 0 {
        Seq::empty()
    } else {
        let rest = invalid_paths(cands.drop_last());
        if cands.last().is_file {
            rest
        } else {
            rest.push(cands.last().path@)
        }
    }
}

/// The outcome of choosing explicitly named files.
pub struct Selection {
    /// The admitted paths, each once, in increasing order.
    pub files: Vec<String>,
    /// The named paths that are missing or not regular files, to be reported.
    pub invalid: Vec<String>,
}

/// Chooses among explicitly named files: those that are missing or not
/// regular files are reported; excluded ones, and Rust test files when tests
/// are ignored, are left out silently.
pub fn select_files(cands: &Vec<Candidate>, root: &str, ignore_tests: bool) -> (r: Selection)
    ensures
        sorted_set(
            views(r.files@),
            |p: Seq<char>| chosen_explicitly(cands@, root@, ignore_tests, p),
        ),
        views(r.invalid@) == invalid_paths(cands@),
{
    let mut invalid: Vec<String> = Vec::new();
    let mut wanted: Vec<bool> = Vec::new();
    let mut i: usize = 0;
    while i < cands.len()
        invariant
            i <= cands@.len(),
            wanted@.len() == i,
            forall|j: int| 0 <= j < i ==> #[trigger] wanted@[j],
            views(invalid@) == invalid_paths(cands@.take(i as int)),
        decreases cands@.len() - i,
    {
        let c = &cands[i];
        let ghost old_invalid = views(invalid@);
        assert(cands@.take(i + 1).drop_last() =~= cands@.take(i as int));
        if !c.is_file {
            invalid.push(c.path.clone());
            assert(views(invalid@) =~= old_invalid.push(c.path@));
        }
        wanted.push(true);
        i = i + 1;
    }
    assert(cands@.take(cands@.len() as int) =~= cands@);
    let files = select_wanted(cands, root, ignore_tests, &wanted);
    assert forall|p: Seq<char>|
        chosen_wanted(cands@, root@, ignore_tests, wanted@, p) <==> chosen_explicitly(
            cands@,
            root@,
            ignore_tests,
            p,
        ) by {
        if chosen_explicitly(cands@, root@, ignore_tests, p) {
            let j = choose|j: int|
                0 <= j < cands@.len() && admitted(#[trigger] cands@[j], root@, ignore_tests)
                    && cands@[j].path@ == p;
            assert(wanted@[j]);
        }
    }
    Selection { files, invalid }
}

/// A dependency lock file (named `Cargo.lock`, `package-lock.json`,
/// `yarn.lock`, `Pipfile.lock`, `poetry.lock`, or anything ending in `.lock`)
/// is never selected, whichever patterns match it and whichever way it is
/// named.
pub proof fn lemma_lock_files_never_selected(
    cands: Seq<Candidate>,
    root: Seq<char>,
    patterns: Seq<Seq<char>>,
    ignore_tests: bool,
    p: Seq<char>,
    n: Seq<char>,
)
    requires
        file_name(p) == Some(n),
        n == "Cargo.lock"@ || n == "package-lock.json"@ || n == "yarn.lock"@ || n
            == "Pipfile.lock"@ || n == "poetry.lock"@ || ends_with(n, ".lock"@),
    ensures
        !chosen_by_patterns(cands, root, patterns, ignore_tests, p),
        !chosen_explicitly(cands, root, ignore_tests, p),
{
}

} // verus!

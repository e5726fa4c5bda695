//! Rust test code: recognising test files and removing test modules.
use vstd::prelude::*;
use crate::text::{
    absent, chars_of, occurs_at, occurs_at_exec, string_of,
};
use crate::paths::{
    extension, extension_chars, file_name, file_name_chars, has_component, has_component_exec,
};

verus! {

/// The attribute that opens a test region: `#[cfg(test)]`.
pub open spec fn test_marker() -> Seq<char> {
    seq!['#', '[', 'c', 'f', 'g', '(', 't', 'e', 's', 't', ')', ']']
}

/// The declaration of the test module: `mod tests`.
pub open spec fn test_module() -> Seq<char> {
    seq!['m', 'o', 'd', ' ', 't', 'e', 's', 't', 's']
}

/// Index just past the brace that closes a block, scanning from `j` with
/// `depth` blocks open; the end of `s` when they never close.
pub open spec fn block_end(s: Seq<char>, j: int, depth: nat) -> int
    decreases s.len() - j,
{
    if j < 0 || j >= s.len() {
        s.len() as int
    } else if s[j] == '{' {
        block_end(s, j + 1, depth + 1)
    } else if s[j] == '}' {
        if depth <= 1 {
            j + 1
        } else {
            block_end(s, j + 1, (depth - 1) as nat)
        }
    } else {
        block_end(s, j + 1, depth)
    }
}

/// The first position at or after `j` that does not hold a blank (the end
/// of `s` when only blanks follow).
pub open spec fn skip_blanks(s: Seq<char>, j: int) -> int
    decreases s.len() - j,
{
    if 0 <= j < s.len() && is_blank(s[j]) {
        skip_blanks(s, j + 1)
    } else {
        j
    }
}

/// The opening brace of a module header that starts at `h`: the first `{`
/// from `h` on, if any.
pub open spec fn header_brace(s: Seq<char>, h: int) -> Option<int>
    decreases s.len() - h,
{
    if h < 0 || h >= s.len() {
        None
    } else if s[h] == '{' {
        Some(h)
    } else {
        header_brace(s, h + 1)
    }
}

/// Where scanning resumes after a test marker found at `i`. When the marker
/// is followed, past blanks only, by `mod tests` and a header that opens a
/// body, scanning resumes past the brace that closes that body; otherwise
/// just past the marker.
pub open spec fn resume_after_marker(s: Seq<char>, i: int) -> int {
    let m = skip_blanks(s, i + test_marker().len());
    if occurs_at(s, m, test_module()) {
        match header_brace(s, m + test_module().len()) {
            Some(b) => block_end(s, b + 1, 1),
            None => i + test_marker().len(),
        }
    } else {
        i + test_marker().len()
    }
}

proof fn lemma_skip_blanks_bounds(s: Seq<char>, j: int)
    requires
        0 <= j <= s.len(),
    ensures
        j <= skip_blanks(s, j) <= s.len(),
    decreases s.len() - j,
{
    if j < s.len() && is_blank(s[j]) {
        lemma_skip_blanks_bounds(s, j + 1);
    }
}

proof fn lemma_header_brace_bounds(s: Seq<char>, h: int)
    requires
        0 <= h,
    ensures
        header_brace(s, h) matches Some(b) ==> h <= b < s.len() && s[b] == '{',
    decreases s.len() - h,
{
    if 0 <= h < s.len() && s[h] != '{' {
        lemma_header_brace_bounds(s, h + 1);
    }
}

proof fn lemma_block_end_bounds(s: Seq<char>, j: int, depth: nat)
    requires
        0 <= j,
    ensures
        j <= block_end(s, j, depth) <= s.len() || (j > s.len() && block_end(s, j, depth)
            == s.len()),
    decreases s.len() - j,
{
    if j < s.len() {
        if s[j] == '{' {
            lemma_block_end_bounds(s, j + 1, depth + 1);
        } else if s[j] == '}' {
            if depth > 1 {
                lemma_block_end_bounds(s, j + 1, (depth - 1) as nat);
            }
        } else {
            lemma_block_end_bounds(s, j + 1, depth);
        }
    }
}

proof fn lemma_resume_advances(s: Seq<char>, i: int)
    requires
        0 <= i < s.len(),
        occurs_at(s, i, test_marker()),
    ensures
        i < resume_after_marker(s, i) <= s.len(),
{
    assert(test_marker().len() == 12);
    lemma_skip_blanks_bounds(s, i + 12);
    let m = skip_blanks(s, i + 12);
    if occurs_at(s, m, test_module()) {
        lemma_header_brace_bounds(s, m + 9);
        match header_brace(s, m + 9) {
            Some(b) => {
                lemma_block_end_bounds(s, b + 1, 1);
            },
            None => {},
        }
    }
}

/// `s` from position `i` on, with every test region removed: a test marker
/// that blanks and a `mod tests` block follow, through the brace that closes
/// that block. A marker without such a block is removed alone.
pub open spec fn strip_from(s: Seq<char>, i: int) -> Seq<char>
    decreases s.len() - i,
    via strip_from_decreases
{
    if i < 0 || i >= s.len() {
        Seq::empty()
    } else if occurs_at(s, i, test_marker()) {
        strip_from(s, resume_after_marker(s, i))
    } else {
        seq![s[i]] + strip_from(s, i + 1)
    }
}

#[via_fn]
proof fn strip_from_decreases(s: Seq<char>, i: int) {
    if 0 <= i < s.len() && occurs_at(s, i, test_marker()) {
        lemma_resume_advances(s, i);
    }
}

/// The source text `s` with its test modules removed.
pub open spec fn stripped(s: Seq<char>) -> Seq<char> {
    strip_from(s, 0)
}

/// Net count of `{` over `}` in `s`.
pub open spec fn brace_depth(s: Seq<char>) -> int
    decreases s.len(),
{
    if s.len() == 0 {
        0
    } else {
        brace_depth(s.drop_last()) + if s.last() == '{' {
            1int
        } else if s.last() == '}' {
            -1int
        } else {
            0int
        }
    }
}

/// Every `}` of `s` closes a `{` of `s`, and every `{` is closed.
pub open spec fn balanced(s: Seq<char>) -> bool {
    &&& brace_depth(s) == 0
    &&& forall|k: int| 0 <= k <= s.len() ==> brace_depth(#[trigger] s.take(k)) >= 0
}

/// Whitespace (Unicode `White_Space`) that may stand between a test marker
/// and its module.
#[verifier::opaque]
pub open spec fn is_blank(c: char) -> bool {
    ||| '\u{9}' <= c <= '\u{d}'
    ||| c == ' '
    ||| c == '\u{85}'
    ||| c == '\u{a0}'
    ||| c == '\u{1680}'
    ||| '\u{2000}' <= c <= '\u{200a}'
    ||| c == '\u{2028}'
    ||| c == '\u{2029}'
    ||| c == '\u{202f}'
    ||| c == '\u{205f}'
    ||| c == '\u{3000}'
}

/// A test region: the marker, blanks, `mod tests`, the rest of the
/// module's header, and its braced body.
pub open spec fn test_region(gap: Seq<char>, head: Seq<char>, body: Seq<char>) -> Seq<char> {
    test_marker() + gap + test_module() + head + seq!['{'] + body + seq!['}']
}

proof fn lemma_plain_run(s: Seq<char>, i: int, e: int)
    requires
        0 <= i <= e <= s.len(),
        forall|j: int| i <= j < e ==> !#[trigger] occurs_at(s, j, test_marker()),
    ensures
        strip_from(s, i) == s.subrange(i, e) + strip_from(s, e),
    decreases e - i,
{
    if i < e {
        lemma_plain_run(s, i + 1, e);
        assert(s.subrange(i, e) =~= seq![s[i]] + s.subrange(i + 1, e));
    } else {
        assert(s.subrange(i, e) =~= Seq::<char>::empty());
    }
}

proof fn lemma_block_end_of_body(s: Seq<char>, start: int, body: Seq<char>, k: int)
    requires
        0 <= start,
        start + body.len() < s.len(),
        s.subrange(start, start + body.len()) == body,
        s[start + body.len()] == '}',
        balanced(body),
        0 <= k <= body.len(),
    ensures
        block_end(s, start + k, (1 + brace_depth(body.take(k))) as nat) == start + body.len()
            + 1,
    decreases body.len() - k,
{
    assert(brace_depth(body.take(k)) >= 0);
    if k == body.len() {
        assert(body.take(k) =~= body);
    } else {
        lemma_block_end_of_body(s, start, body, k + 1);
        assert(body.take(k + 1).drop_last() =~= body.take(k));
        assert(s[start + k] == body[k]);
        assert(brace_depth(body.take(k + 1)) >= 0);
    }
}

proof fn lemma_region_layout(
    before: Seq<char>,
    gap: Seq<char>,
    head: Seq<char>,
    body: Seq<char>,
    after: Seq<char>,
)
    ensures
        ({
            let s = before + test_region(gap, head, body) + after;
            let a = before.len() as int;
            let mpos = a + 12 + gap.len();
            let bpos = mpos + 9 + head.len();
            let e = bpos + 1 + body.len() + 1;
            &&& s.len() == e + after.len()
            &&& s.subrange(0, a) == before
            &&& s.subrange(a, a + 12) == test_marker()
            &&& s.subrange(a + 12, mpos) == gap
            &&& s.subrange(mpos, mpos + 9) == test_module()
            &&& s.subrange(mpos + 9, bpos) == head
            &&& s.subrange(bpos, bpos + 1) == seq!['{']
            &&& s.subrange(bpos + 1, e - 1) == body
            &&& s[e - 1] == '}'
            &&& s.subrange(e, s.len() as int) == after
        }),
{
    let r = test_region(gap, head, body);
    let s = before + r + after;
    let a = before.len() as int;
    let g = gap.len() as int;
    let h = head.len() as int;
    let e = a + r.len();
    lemma_region_pieces(gap, head, body);
    assert(s.subrange(0, a) =~= before);
    assert(s.subrange(a, e) =~= r);
    assert(s.subrange(e, s.len() as int) =~= after);
    lemma_piece(s, a, r, 0, 12);
    lemma_piece(s, a, r, 12, 12 + g);
    lemma_piece(s, a, r, 12 + g, 21 + g);
    lemma_piece(s, a, r, 21 + g, 21 + g + h);
    lemma_piece(s, a, r, 21 + g + h, 22 + g + h);
    lemma_piece(s, a, r, 22 + g + h, r.len() - 1);
    assert(s[e - 1] == s.subrange(a, e)[r.len() - 1]);
}

proof fn lemma_piece(s: Seq<char>, a: int, r: Seq<char>, x: int, y: int)
    requires
        0 <= a,
        a + r.len() <= s.len(),
        s.subrange(a, a + r.len()) == r,
        0 <= x <= y <= r.len(),
    ensures
        s.subrange(a + x, a + y) == r.subrange(x, y),
{
    assert forall|k: int| 0 <= k < y - x implies s.subrange(a + x, a + y)[k] == r.subrange(x, y)[k] by {
        assert(s.subrange(a, a + r.len())[x + k] == s[a + x + k]);
    }
    assert(s.subrange(a + x, a + y) =~= r.subrange(x, y));
}

proof fn lemma_region_pieces(gap: Seq<char>, head: Seq<char>, body: Seq<char>)
    ensures
        ({
            let r = test_region(gap, head, body);
            let g = gap.len() as int;
            let h = head.len() as int;
            &&& r.len() == 23 + g + h + body.len()
            &&& r.subrange(0, 12) == test_marker()
            &&& r.subrange(12, 12 + g) == gap
            &&& r.subrange(12 + g, 21 + g) == test_module()
            &&& r.subrange(21 + g, 21 + g + h) == head
            &&& r.subrange(21 + g + h, 22 + g + h) == seq!['{']
            &&& r.subrange(22 + g + h, r.len() - 1) == body
            &&& r[r.len() - 1] == '}'
        }),
{
    let r = test_region(gap, head, body);
    let r1 = test_marker() + gap;
    let r2 = r1 + test_module();
    let r3 = r2 + head;
    let r4 = r3 + seq!['{'];
    let r5 = r4 + body;
    assert(r == r5 + seq!['}']);
    assert(r.subrange(0, r5.len() as int) =~= r5);
    assert(r5.subrange(0, r4.len() as int) =~= r4);
    assert(r4.subrange(0, r3.len() as int) =~= r3);
    assert(r3.subrange(0, r2.len() as int) =~= r2);
    assert(r2.subrange(0, r1.len() as int) =~= r1);
    assert(r.subrange(0, 12) =~= test_marker());
    assert(r.subrange(12, 12 + gap.len() as int) =~= gap);
    assert(r.subrange(r1.len() as int, r2.len() as int) =~= test_module());
    assert(r.subrange(r2.len() as int, r3.len() as int) =~= head);
    assert(r.subrange(r3.len() as int, r4.len() as int) =~= seq!['{']);
    assert(r.subrange(r4.len() as int, r5.len() as int) =~= body);
}

proof fn lemma_no_marker_before_region(s: Seq<char>, before: Seq<char>)
    requires
        absent(before, test_marker()),
        before.len() + 12 <= s.len(),
        s.subrange(0, before.len() as int) == before,
        s.subrange(before.len() as int, before.len() + 12int) == test_marker(),
    ensures
        forall|j: int| 0 <= j < before.len() ==> !#[trigger] occurs_at(s, j, test_marker()),
{
    let m = test_marker();
    let a = before.len() as int;
    assert forall|j: int| 0 <= j < a implies !#[trigger] occurs_at(s, j, m) by {
        if occurs_at(s, j, m) {
            if j + 12 <= a {
                assert(before.subrange(j, j + 12) =~= s.subrange(j, j + 12));
                assert(occurs_at(before, j, m));
            } else {
                assert(s.subrange(j, j + 12)[a - j] == s[a]);
                assert(s.subrange(a, a + 12)[0] == s[a]);
            }
        }
    }
}

proof fn lemma_no_marker_after_region(s: Seq<char>, e: int, after: Seq<char>)
    requires
        absent(after, test_marker()),
        0 <= e <= s.len(),
        s.subrange(e, s.len() as int) == after,
    ensures
        forall|j: int| e <= j < s.len() ==> !#[trigger] occurs_at(s, j, test_marker()),
{
    let m = test_marker();
    assert forall|j: int| e <= j < s.len() implies !#[trigger] occurs_at(s, j, m) by {
        if occurs_at(s, j, m) {
            assert(after.subrange(j - e, j - e + 12) =~= s.subrange(j, j + 12));
            assert(occurs_at(after, j - e, m));
        }
    }
}

proof fn lemma_skip_blanks_to(s: Seq<char>, j: int, m: int)
    requires
        0 <= j <= m < s.len(),
        forall|k: int| j <= k < m ==> is_blank(#[trigger] s[k]),
        !is_blank(s[m]),
    ensures
        skip_blanks(s, j) == m,
    decreases m - j,
{
    if j < m {
        lemma_skip_blanks_to(s, j + 1, m);
    }
}

proof fn lemma_module_follows_marker(s: Seq<char>, a: int, gap: Seq<char>)
    requires
        0 <= a,
        a + 12 + gap.len() + 9 <= s.len(),
        s.subrange(a + 12, a + 12 + gap.len()) == gap,
        s.subrange(a + 12 + gap.len(), a + 12 + gap.len() + 9) == test_module(),
        forall|k: int| 0 <= k < gap.len() ==> is_blank(#[trigger] gap[k]),
    ensures
        skip_blanks(s, a + 12) == a + 12 + gap.len(),
{
    let mpos = a + 12 + gap.len();
    assert forall|k: int| a + 12 <= k < mpos implies is_blank(#[trigger] s[k]) by {
        assert(s.subrange(a + 12, mpos)[k - a - 12] == s[k]);
    }
    assert(s.subrange(mpos, mpos + 9)[0] == s[mpos]);
    assert(!is_blank(s[mpos])) by {
        reveal(is_blank);
    }
    lemma_skip_blanks_to(s, a + 12, mpos);
}

proof fn lemma_header_brace_to(s: Seq<char>, h: int, b: int)
    requires
        0 <= h <= b < s.len(),
        forall|k: int| h <= k < b ==> #[trigger] s[k] != '{',
        s[b] == '{',
    ensures
        header_brace(s, h) == Some(b),
    decreases b - h,
{
    if h < b {
        lemma_header_brace_to(s, h + 1, b);
    }
}

proof fn lemma_brace_follows_module(s: Seq<char>, mpos: int, head: Seq<char>)
    requires
        0 <= mpos,
        mpos + 9 + head.len() + 1 <= s.len(),
        s.subrange(mpos + 9, mpos + 9 + head.len()) == head,
        s.subrange(mpos + 9 + head.len(), mpos + 9 + head.len() + 1) == seq!['{'],
        forall|k: int| 0 <= k < head.len() ==> #[trigger] head[k] != '{',
    ensures
        header_brace(s, mpos + 9) == Some(mpos + 9 + head.len()),
{
    let bpos = mpos + 9 + head.len();
    assert forall|k: int| mpos + 9 <= k < bpos implies #[trigger] s[k] != '{' by {
        assert(s.subrange(mpos + 9, bpos)[k - mpos - 9] == s[k]);
    }
    assert(s.subrange(bpos, bpos + 1)[0] == s[bpos]);
    lemma_header_brace_to(s, mpos + 9, bpos);
}

/// Stripping a source that holds one test region (its marker followed by
/// blanks and `mod tests`, no `{` before the module's opening brace, and a
/// body with balanced braces), and no other test marker, removes exactly that
/// region and leaves everything else as it was.
pub proof fn lemma_strip_removes_exactly_the_test_region(
    before: Seq<char>,
    gap: Seq<char>,
    head: Seq<char>,
    body: Seq<char>,
    after: Seq<char>,
)
    requires
        absent(before, test_marker()),
        absent(after, test_marker()),
        forall|k: int| 0 <= k < gap.len() ==> is_blank(#[trigger] gap[k]),
        forall|k: int| 0 <= k < head.len() ==> #[trigger] head[k] != '{',
        balanced(body),
    ensures
        stripped(before + test_region(gap, head, body) + after) == before + after,
{
    let s = before + test_region(gap, head, body) + after;
    let a = before.len() as int;
    let mpos = a + 12 + gap.len();
    let bpos = mpos + 9 + head.len();
    let e = bpos + 1 + body.len() + 1;
    lemma_region_layout(before, gap, head, body, after);
    lemma_no_marker_before_region(s, before);
    lemma_no_marker_after_region(s, e, after);
    lemma_module_follows_marker(s, a, gap);
    lemma_brace_follows_module(s, mpos, head);
    assert(s[bpos + 1 + body.len()] == '}');
    assert(body.take(0) =~= Seq::<char>::empty());
    lemma_block_end_of_body(s, bpos + 1, body, 0);
    assert(occurs_at(s, a, test_marker()));
    assert(occurs_at(s, mpos, test_module()));
    assert(resume_after_marker(s, a) == e);
    lemma_plain_run(s, 0, a);
    lemma_plain_run(s, e, s.len() as int);
    assert(strip_from(s, s.len() as int) =~= Seq::<char>::empty());
    assert(strip_from(s, a) == strip_from(s, e));
    assert(stripped(s) =~= before + after);
}

proof fn lemma_occurs_shift(p: Seq<char>, t: Seq<char>, k: int, x: Seq<char>)
    requires
        0 <= k,
    ensures
        occurs_at(p + t, p.len() + k, x) == occurs_at(t, k, x),
{
    let s = p + t;
    if k + x.len() <= t.len() {
        assert(s.subrange(p.len() + k, p.len() + k + x.len()) =~= t.subrange(k, k + x.len()));
    }
}

proof fn lemma_skip_blanks_shift(p: Seq<char>, t: Seq<char>, k: int)
    requires
        0 <= k,
    ensures
        skip_blanks(p + t, p.len() + k) == p.len() + skip_blanks(t, k),
    decreases t.len() - k,
{
    if k < t.len() && is_blank(t[k]) {
        assert((p + t)[p.len() + k] == t[k]);
        lemma_skip_blanks_shift(p, t, k + 1);
    } else if k < t.len() {
        assert((p + t)[p.len() + k] == t[k]);
    }
}

proof fn lemma_header_brace_shift(p: Seq<char>, t: Seq<char>, h: int)
    requires
        0 <= h,
    ensures
        header_brace(p + t, p.len() + h) == match header_brace(t, h) {
            Some(b) => Some(p.len() + b),
            None => None,
        },
    decreases t.len() - h,
{
    if h < t.len() {
        assert((p + t)[p.len() + h] == t[h]);
        if t[h] != '{' {
            lemma_header_brace_shift(p, t, h + 1);
        }
    }
}

proof fn lemma_block_end_shift(p: Seq<char>, t: Seq<char>, j: int, depth: nat)
    requires
        0 <= j,
    ensures
        block_end(p + t, p.len() + j, depth) == p.len() + block_end(t, j, depth),
    decreases t.len() - j,
{
    if j < t.len() {
        assert((p + t)[p.len() + j] == t[j]);
        if t[j] == '{' {
            lemma_block_end_shift(p, t, j + 1, depth + 1);
        } else if t[j] == '}' {
            if depth > 1 {
                lemma_block_end_shift(p, t, j + 1, (depth - 1) as nat);
            }
        } else {
            lemma_block_end_shift(p, t, j + 1, depth);
        }
    }
}

proof fn lemma_strip_shift(p: Seq<char>, t: Seq<char>, k: int)
    requires
        0 <= k,
    ensures
        strip_from(p + t, p.len() + k) == strip_from(t, k),
    decreases t.len() - k,
{
    let s = p + t;
    let n = p.len() as int;
    if k < t.len() {
        assert(s[n + k] == t[k]);
        lemma_occurs_shift(p, t, k, test_marker());
        if occurs_at(t, k, test_marker()) {
            lemma_skip_blanks_shift(p, t, k + 12);
            let m = skip_blanks(t, k + 12);
            lemma_skip_blanks_bounds(t, k + 12);
            lemma_occurs_shift(p, t, m, test_module());
            lemma_header_brace_shift(p, t, m + 9);
            lemma_header_brace_bounds(t, m + 9);
            if occurs_at(t, m, test_module()) {
                match header_brace(t, m + 9) {
                    Some(b) => {
                        lemma_block_end_shift(p, t, b + 1, 1);
                    },
                    None => {},
                }
            }
            assert(resume_after_marker(s, n + k) == n + resume_after_marker(t, k));
            lemma_resume_advances(t, k);
            lemma_strip_shift(p, t, resume_after_marker(t, k));
        } else {
            lemma_strip_shift(p, t, k + 1);
        }
    }
}

/// A test region that stands after text holding no test marker is removed,
/// that text is kept, and stripping goes on with what follows the region as
/// if it stood alone.
pub proof fn lemma_strip_region_then_rest(
    before: Seq<char>,
    gap: Seq<char>,
    head: Seq<char>,
    body: Seq<char>,
    rest: Seq<char>,
)
    requires
        absent(before, test_marker()),
        forall|k: int| 0 <= k < gap.len() ==> is_blank(#[trigger] gap[k]),
        forall|k: int| 0 <= k < head.len() ==> #[trigger] head[k] != '{',
        balanced(body),
    ensures
        stripped(before + test_region(gap, head, body) + rest) == before + stripped(rest),
{
    let pre = before + test_region(gap, head, body);
    let s = pre + rest;
    let a = before.len() as int;
    let mpos = a + 12 + gap.len();
    let bpos = mpos + 9 + head.len();
    let e = bpos + 1 + body.len() + 1;
    lemma_region_layout(before, gap, head, body, rest);
    lemma_no_marker_before_region(s, before);
    lemma_module_follows_marker(s, a, gap);
    lemma_brace_follows_module(s, mpos, head);
    assert(s[bpos + 1 + body.len()] == '}');
    assert(body.take(0) =~= Seq::<char>::empty());
    lemma_block_end_of_body(s, bpos + 1, body, 0);
    assert(occurs_at(s, a, test_marker()));
    assert(occurs_at(s, mpos, test_module()));
    assert(resume_after_marker(s, a) == e);
    lemma_plain_run(s, 0, a);
    assert(pre.len() == e);
    lemma_strip_shift(pre, rest, 0);
    assert(strip_from(s, a) == strip_from(s, e));
    assert(stripped(s) =~= before + stripped(rest));
}

/// A well-formed test region: blanks between marker and `mod tests`, a
/// header without `{`, and a body with balanced braces.
pub open spec fn region_ok(r: (Seq<char>, Seq<char>, Seq<char>)) -> bool {
    &&& forall|k: int| 0 <= k < r.0.len() ==> is_blank(#[trigger] r.0[k])
    &&& forall|k: int| 0 <= k < r.1.len() ==> #[trigger] r.1[k] != '{'
    &&& balanced(r.2)
}

/// The text `plain[0]`, region 0, `plain[1]`, region 1, ..., ending with the
/// last of `plain`.
pub open spec fn interleaved(
    plain: Seq<Seq<char>>,
    regions: Seq<(Seq<char>, Seq<char>, Seq<char>)>,
) -> Seq<char>
    decreases regions.len(),
{
    if regions.len() == 0 || plain.len() == 0 {
        if plain.len() > 0 {
            plain[0]
        } else {
            Seq::empty()
        }
    } else {
        plain[0] + test_region(regions[0].0, regions[0].1, regions[0].2) + interleaved(
            plain.drop_first(),
            regions.drop_first(),
        )
    }
}

/// The texts of `plain`, one after the other.
pub open spec fn joined(plain: Seq<Seq<char>>) -> Seq<char>
    decreases plain.len(),
{
    if plain.len() == 0 {
        Seq::empty()
    } else {
        plain[0] + joined(plain.drop_first())
    }
}

/// Stripping text made of marker-free pieces with well-formed test regions
/// between them removes exactly the regions and keeps every piece, in order.
pub proof fn lemma_strip_removes_exactly_the_test_regions(
    plain: Seq<Seq<char>>,
    regions: Seq<(Seq<char>, Seq<char>, Seq<char>)>,
)
    requires
        plain.len() == regions.len() + 1,
        forall|i: int| 0 <= i < plain.len() ==> absent(#[trigger] plain[i], test_marker()),
        forall|i: int| 0 <= i < regions.len() ==> region_ok(#[trigger] regions[i]),
    ensures
        stripped(interleaved(plain, regions)) == joined(plain),
    decreases regions.len(),
{
    if regions.len() == 0 {
        let t = plain[0];
        assert(absent(plain[0], test_marker()));
        lemma_plain_run(t, 0, t.len() as int);
        assert(strip_from(t, t.len() as int) =~= Seq::<char>::empty());
        assert(t.subrange(0, t.len() as int) =~= t);
        assert(plain.drop_first() =~= Seq::<Seq<char>>::empty());
        assert(joined(plain.drop_first()) == Seq::<char>::empty());
        assert(joined(plain) =~= t);
    } else {
        let r = regions[0];
        assert(region_ok(r));
        assert(absent(plain[0], test_marker()));
        let p1 = plain.drop_first();
        let r1 = regions.drop_first();
        assert forall|i: int| 0 <= i < p1.len() implies absent(#[trigger] p1[i], test_marker()) by {
            assert(p1[i] == plain[i + 1]);
        }
        assert forall|i: int| 0 <= i < r1.len() implies region_ok(#[trigger] r1[i]) by {
            assert(r1[i] == regions[i + 1]);
        }
        lemma_strip_removes_exactly_the_test_regions(p1, r1);
        lemma_strip_region_then_rest(plain[0], r.0, r.1, r.2, interleaved(p1, r1));
    }
}

/// A test region whose body never closes: the marker, blanks, `mod tests`,
/// the rest of the module's header, its opening brace and what follows.
pub open spec fn open_region(gap: Seq<char>, head: Seq<char>, body: Seq<char>) -> Seq<char> {
    test_marker() + gap + test_module() + head + seq!['{'] + body
}

proof fn lemma_open_region_pieces(gap: Seq<char>, head: Seq<char>, body: Seq<char>)
    ensures
        ({
            let r = open_region(gap, head, body);
            let g = gap.len() as int;
            let h = head.len() as int;
            &&& r.len() == 22 + g + h + body.len()
            &&& r.subrange(0, 12) == test_marker()
            &&& r.subrange(12, 12 + g) == gap
            &&& r.subrange(12 + g, 21 + g) == test_module()
            &&& r.subrange(21 + g, 21 + g + h) == head
            &&& r.subrange(21 + g + h, 22 + g + h) == seq!['{']
            &&& r.subrange(22 + g + h, r.len() as int) == body
        }),
{
    let r = open_region(gap, head, body);
    let r1 = test_marker() + gap;
    let r2 = r1 + test_module();
    let r3 = r2 + head;
    let r4 = r3 + seq!['{'];
    assert(r == r4 + body);
    assert(r.subrange(0, r4.len() as int) =~= r4);
    assert(r4.subrange(0, r3.len() as int) =~= r3);
    assert(r3.subrange(0, r2.len() as int) =~= r2);
    assert(r2.subrange(0, r1.len() as int) =~= r1);
    assert(r.subrange(0, 12) =~= test_marker());
    assert(r.subrange(12, 12 + gap.len() as int) =~= gap);
    assert(r.subrange(r1.len() as int, r2.len() as int) =~= test_module());
    assert(r.subrange(r2.len() as int, r3.len() as int) =~= head);
    assert(r.subrange(r3.len() as int, r4.len() as int) =~= seq!['{']);
    assert(r.subrange(r4.len() as int, r.len() as int) =~= body);
}

proof fn lemma_block_end_unclosed(s: Seq<char>, start: int, body: Seq<char>, k: int)
    requires
        0 <= start,
        start + body.len() == s.len(),
        s.subrange(start, s.len() as int) == body,
        forall|j: int| 0 <= j <= body.len() ==> brace_depth(#[trigger] body.take(j)) >= 0,
        0 <= k <= body.len(),
    ensures
        block_end(s, start + k, (1 + brace_depth(body.take(k))) as nat) == s.len(),
    decreases body.len() - k,
{
    assert(brace_depth(body.take(k)) >= 0);
    if k < body.len() {
        lemma_block_end_unclosed(s, start, body, k + 1);
        assert(body.take(k + 1).drop_last() =~= body.take(k));
        assert(s.subrange(start, s.len() as int)[k] == s[start + k]);
        assert(brace_depth(body.take(k + 1)) >= 0);
    }
}

/// A test region whose body never closes takes everything from its marker
/// to the end of the text with it; what stands before the marker is kept.
pub proof fn lemma_strip_unclosed_region(
    before: Seq<char>,
    gap: Seq<char>,
    head: Seq<char>,
    body: Seq<char>,
)
    requires
        absent(before, test_marker()),
        forall|k: int| 0 <= k < gap.len() ==> is_blank(#[trigger] gap[k]),
        forall|k: int| 0 <= k < head.len() ==> #[trigger] head[k] != '{',
        forall|j: int| 0 <= j <= body.len() ==> brace_depth(#[trigger] body.take(j)) >= 0,
    ensures
        stripped(before + open_region(gap, head, body)) == before,
{
    let r = open_region(gap, head, body);
    let s = before + r;
    let a = before.len() as int;
    let g = gap.len() as int;
    let h = head.len() as int;
    let mpos = a + 12 + g;
    let bpos = mpos + 9 + h;
    lemma_open_region_pieces(gap, head, body);
    assert(s.subrange(0, a) =~= before);
    assert(s.subrange(a, s.len() as int) =~= r);
    lemma_piece(s, a, r, 0, 12);
    lemma_piece(s, a, r, 12, 12 + g);
    lemma_piece(s, a, r, 12 + g, 21 + g);
    lemma_piece(s, a, r, 21 + g, 21 + g + h);
    lemma_piece(s, a, r, 21 + g + h, 22 + g + h);
    lemma_piece(s, a, r, 22 + g + h, r.len() as int);
    lemma_no_marker_before_region(s, before);
    lemma_module_follows_marker(s, a, gap);
    lemma_brace_follows_module(s, mpos, head);
    assert(body.take(0) =~= Seq::<char>::empty());
    lemma_block_end_unclosed(s, bpos + 1, body, 0);
    assert(occurs_at(s, a, test_marker()));
    assert(occurs_at(s, mpos, test_module()));
    assert(resume_after_marker(s, a) == s.len());
    lemma_plain_run(s, 0, a);
    assert(strip_from(s, s.len() as int) =~= Seq::<char>::empty());
    assert(stripped(s) =~= before);
}

fn resume_exec(v: &Vec<char>, i: usize, module: &Vec<char>) -> (r: usize)
    requires
        i < v@.len(),
        occurs_at(v@, i as int, test_marker()),
        module@ == test_module(),
    ensures
        r as int == resume_after_marker(v@, i as int),
{
    proof {
        lemma_resume_advances(v@, i as int);
        assert(test_marker().len() == 12);
        assert(i + 12 <= v@.len());
    }
    let n = v.len();
    let mut m = i + 12;
    while m < n && is_blank_exec(v[m])
        invariant
            i + 12 <= m <= n,
            n == v@.len(),
            skip_blanks(v@, m as int) == skip_blanks(v@, i + 12),
        decreases n - m,
    {
        m = m + 1;
    }
    if !occurs_at_exec(v, m, module) {
        return i + 12;
    }
    let mut h = m + 9;
    while h < n && v[h] != '{'
        invariant
            m + 9 <= h <= n,
            n == v@.len(),
            header_brace(v@, h as int) == header_brace(v@, m + 9),
        decreases n - h,
    {
        h = h + 1;
    }
    if h == n || v[h] != '{' {
        return i + 12;
    }
    let b = h;
    proof {
        assert(resume_after_marker(v@, i as int) == block_end(v@, b + 1, 1));
    }
    let mut depth: usize = 1;
    let mut j = b + 1;
    while j < v.len()
        invariant
            b < j,
            1 <= depth <= j - b,
            resume_after_marker(v@, i as int) == block_end(v@, b + 1, 1),
            block_end(v@, j as int, depth as nat) == block_end(v@, b + 1, 1),
        decreases v@.len() - j,
    {
        if v[j] == '{' {
            depth = depth + 1;
        } else if v[j] == '}' {
            if depth == 1 {
                assert(block_end(v@, j as int, 1) == j + 1);
                return j + 1;
            }
            depth = depth - 1;
        }
        j = j + 1;
    }
    v.len()
}

fn is_blank_exec(c: char) -> (r: bool)
    ensures
        r == is_blank(c),
{
    reveal(is_blank);
    ('\u{9}' <= c && c <= '\u{d}') || c == ' ' || c == '\u{85}' || c == '\u{a0}' || c
        == '\u{1680}' || ('\u{2000}' <= c && c <= '\u{200a}') || c == '\u{2028}' || c
        == '\u{2029}' || c == '\u{202f}' || c == '\u{205f}' || c == '\u{3000}'
}

fn strip_chars(v: &Vec<char>) -> (r: Vec<char>)
    ensures
        r@ == stripped(v@),
{
    let marker: Vec<char> = vec!['#', '[', 'c', 'f', 'g', '(', 't', 'e', 's', 't', ')', ']'];
    let module: Vec<char> = vec!['m', 'o', 'd', ' ', 't', 'e', 's', 't', 's'];
    assert(marker@ =~= test_marker());
    assert(module@ =~= test_module());
    let mut out: Vec<char> = Vec::new();
    let mut i: usize = 0;
    while i < v.len()
        invariant
            i <= v@.len(),
            marker@ == test_marker(),
            module@ == test_module(),
            out@ + strip_from(v@, i as int) == stripped(v@),
        decreases v@.len() - i,
    {
        if occurs_at_exec(v, i, &marker) {
            let next = resume_exec(v, i, &module);
            proof {
                lemma_resume_advances(v@, i as int);
            }
            i = next;
        } else {
            out.push(v[i]);
            assert(out@ + strip_from(v@, i + 1) =~= stripped(v@));
            i = i + 1;
        }
    }
    assert(out@ =~= stripped(v@));
    out
}

/// Removes every `#[cfg(test)]` region: the marker and everything through the
/// closing brace of the `mod tests` block that follows it after blanks only
/// (its body opens at the first `{` after `mod tests`; if the body never
/// closes, everything from the marker on goes). A marker not followed that
/// way by `mod tests`, or with no `{` after it, is dropped alone.
pub fn strip_rust_tests(s: &str) -> (r: String)
    ensures
        r@ == stripped(s@),
{
    let v = chars_of(s);
    let out = strip_chars(&v);
    string_of(&out)
}


/// `s` ends with `t`.
pub open spec fn ends_with(s: Seq<char>, t: Seq<char>) -> bool {
    t.len() <= s.len() && s.subrange(s.len() - t.len(), s.len() as int) == t
}

/// A Rust test file: a `.rs` file named `tests.rs` or ending in `_test.rs`,
/// or lying under a directory named `tests`.
pub open spec fn is_rust_test_path(p: Seq<char>) -> bool {
    &&& extension(p) == Some(seq!['r', 's'])
    &&& {
        ||| ends_with(file_name(p)->0, seq!['_', 't', 'e', 's', 't', '.', 'r', 's'])
        ||| file_name(p)->0 == seq!['t', 'e', 's', 't', 's', '.', 'r', 's']
        ||| has_component(p, seq!['t', 'e', 's', 't', 's'])
    }
}

/// Whether `path` names a Rust test file.
pub fn is_rust_test_file(path: &str) -> (r: bool)
    ensures
        r == is_rust_test_path(path@),
{
    let p = chars_of(path);
    let ext = match extension_chars(&p) {
        Some(e) => e,
        None => return false,
    };
    let rs: Vec<char> = vec!['r', 's'];
    assert(rs@ =~= seq!['r', 's']);
    if !(ext.len() == 2 && occurs_at_exec(&ext, 0, &rs)) {
        proof {
            if ext@ == seq!['r', 's'] {
                assert(ext@.subrange(0, 2) =~= ext@);
            }
        }
        return false;
    }
    assert(ext@ =~= seq!['r', 's']);
    let name = match file_name_chars(&p) {
        Some(n) => n,
        None => return false,
    };
    let suffix: Vec<char> = vec!['_', 't', 'e', 's', 't', '.', 'r', 's'];
    let exact: Vec<char> = vec!['t', 'e', 's', 't', 's', '.', 'r', 's'];
    let dir: Vec<char> = vec!['t', 'e', 's', 't', 's'];
    assert(suffix@ =~= seq!['_', 't', 'e', 's', 't', '.', 'r', 's']);
    assert(exact@ =~= seq!['t', 'e', 's', 't', 's', '.', 'r', 's']);
    assert(dir@ =~= seq!['t', 'e', 's', 't', 's']);
    let by_suffix = name.len() >= suffix.len() && occurs_at_exec(
        &name,
        name.len() - suffix.len(),
        &suffix,
    );
    let by_name = name.len() == exact.len() && occurs_at_exec(&name, 0, &exact);
    proof {
        if name@ == exact@ {
            assert(name@.subrange(0, 8) =~= name@);
        }
        if by_name {
            assert(name@.subrange(0, 8) =~= name@);
        }
    }
    by_suffix || by_name || has_component_exec(&p, &dir)
}

} // verus!

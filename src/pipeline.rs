//! Assembling the formatted blocks into the final text, in path order,
//! whatever order they were produced in.
use vstd::prelude::*;
use crate::order::{key_listed, key_sorted, lemma_key_sorted_unique, lex_lt, sorted_positions};
use crate::filter::below_root;
use crate::select::{admitted, any_match, chosen_by_patterns, sorted_set, Candidate};
use crate::text::chars_of;

verus! {

/// A formatted block as text: its key (the file's path) and its text.
pub type ChunkView = (Seq<char>, Seq<char>);

/// The texts of a sequence of (key, block) pairs.
pub open spec fn chunk_views(c: Seq<(String, String)>) -> Seq<ChunkView> {
    c.map_values(|x: (String, String)| (x.0@, x.1@))
}

/// `o` puts the blocks of `c` in strictly increasing key order: it holds only
/// blocks of `c`, and one for every key of `c`.
pub open spec fn key_ordering(o: Seq<ChunkView>, c: Seq<ChunkView>) -> bool {
    &&& key_sorted(o, |x: ChunkView| x.0)
    &&& forall|x: ChunkView| o.contains(x) ==> c.contains(x)
    &&& forall|i: int|
        0 <= i < c.len() ==> exists|j: int| 0 <= j < o.len() && o[j].0 == (#[trigger] c[i]).0
}

/// No two blocks of `c` share a key.
pub open spec fn unique_keys(c: Seq<ChunkView>) -> bool {
    forall|i: int, j: int| 0 <= i < j < c.len() ==> (#[trigger] c[i]).0 != (#[trigger] c[j]).0
}

/// The texts of the blocks of `o`, one after the other.
pub open spec fn concat_texts(o: Seq<ChunkView>) -> Seq<char>
    decreases o.len(),
{
    if o.len() == 0 {
        Seq::empty()
    } else {
        concat_texts(o.drop_last()) + o.last().1
    }
}

/// Sorts the blocks by key and concatenates their texts. When each key
/// stands for one block, as it does for a selection, the result is exactly
/// all the blocks in key order.
pub fn assemble(chunks: &Vec<(String, String)>) -> (r: String)
    ensures
        exists|o: Seq<ChunkView>|
            key_ordering(o, chunk_views(chunks@)) && r@ == concat_texts(o),
        unique_keys(chunk_views(chunks@)) ==> exists|o: Seq<ChunkView>|
            key_sorted(o, |x: ChunkView| x.0) && (forall|x: ChunkView|
                o.contains(x) <==> chunk_views(chunks@).contains(x)) && r@ == concat_texts(o),
        unique_keys(chunk_views(chunks@)) ==> forall|o: Seq<ChunkView>|
            key_ordering(o, chunk_views(chunks@)) ==> r@ == concat_texts(o),
{
    let ghost c = chunk_views(chunks@);
    let mut keys: Vec<Vec<char>> = Vec::new();
    let mut i: usize = 0;
    while i < chunks.len()
        invariant
            i <= chunks@.len(),
            keys@.len() == i,
            forall|j: int| 0 <= j < i ==> (#[trigger] keys@[j])@ == chunks@[j].0@,
        decreases chunks@.len() - i,
    {
        keys.push(chars_of(chunks[i].0.as_str()));
        i = i + 1;
    }
    let pos = sorted_positions(&keys);
    let ghost o = pos@.map_values(|k: usize| c[k as int]);
    let mut out = String::new();
    let mut a: usize = 0;
    while a < pos.len()
        invariant
            a <= pos@.len(),
            keys@.len() == chunks@.len(),
            c == chunk_views(chunks@),
            o == pos@.map_values(|k: usize| c[k as int]),
            forall|j: int| 0 <= j < pos@.len() ==> #[trigger] pos@[j] < keys@.len(),
            out@ == concat_texts(o.take(a as int)),
        decreases pos@.len() - a,
    {
        out.append(chunks[pos[a]].1.as_str());
        assert(o.take(a + 1).drop_last() =~= o.take(a as int));
        a = a + 1;
    }
    assert(o.take(pos@.len() as int) =~= o);
    assert forall|x: int, y: int| 0 <= x < y < o.len() implies lex_lt(
        (#[trigger] o[x]).0,
        (#[trigger] o[y]).0,
    ) by {
        assert(keys@[pos@[x] as int]@ == o[x].0);
        assert(keys@[pos@[y] as int]@ == o[y].0);
    }
    assert forall|x: ChunkView| o.contains(x) implies c.contains(x) by {
        let b = choose|b: int| 0 <= b < o.len() && o[b] == x;
        assert(c[pos@[b] as int] == x);
    }
    assert forall|j: int| 0 <= j < c.len() implies exists|b: int|
        0 <= b < o.len() && o[b].0 == (#[trigger] c[j]).0 by {
        assert(key_listed(keys@, pos@, keys@[j]@));
        let b = choose|b: int|
            0 <= b < pos@.len() && (#[trigger] keys@[pos@[b] as int])@ == keys@[j]@;
        assert(o[b].0 == c[j].0);
    }
    assert(key_sorted(o, |x: ChunkView| x.0));
    assert(key_ordering(o, c));
    assert(out@ == concat_texts(o));
    proof {
        if unique_keys(c) {
            lemma_ordering_holds_all(o, c, c);
            assert forall|o2: Seq<ChunkView>| key_ordering(o2, c) implies out@ == concat_texts(
                o2,
            ) by {
                lemma_assembly_ignores_collection_order(c, c, o, o2);
            }
        }
    }
    out
}

proof fn lemma_ordering_holds_all(o: Seq<ChunkView>, c: Seq<ChunkView>, c1: Seq<ChunkView>)
    requires
        key_ordering(o, c),
        unique_keys(c1),
        forall|x: ChunkView| c.contains(x) <==> c1.contains(x),
    ensures
        forall|x: ChunkView| o.contains(x) <==> c1.contains(x),
{
    assert forall|x: ChunkView| c1.contains(x) implies o.contains(x) by {
        assert(c.contains(x));
        let i = choose|i: int| 0 <= i < c.len() && c[i] == x;
        let j = choose|j: int| 0 <= j < o.len() && o[j].0 == (#[trigger] c[i]).0;
        let y = o[j];
        assert(o.contains(y));
        assert(c1.contains(y));
        let p = choose|p: int| 0 <= p < c1.len() && c1[p] == y;
        let q = choose|q: int| 0 <= q < c1.len() && c1[q] == x;
        if p < q {
            assert(c1[p].0 != c1[q].0);
        } else if q < p {
            assert(c1[q].0 != c1[p].0);
        }
    }
}

/// However the formatted blocks were collected (one by one in path order, or
/// as parallel workers finished), the output is the same: two collections
/// holding the same blocks, with one block per path, assemble to the same
/// text.
pub proof fn lemma_assembly_ignores_collection_order(
    c1: Seq<ChunkView>,
    c2: Seq<ChunkView>,
    o1: Seq<ChunkView>,
    o2: Seq<ChunkView>,
)
    requires
        unique_keys(c1),
        forall|x: ChunkView| c1.contains(x) <==> c2.contains(x),
        key_ordering(o1, c1),
        key_ordering(o2, c2),
    ensures
        o1 == o2,
        concat_texts(o1) == concat_texts(o2),
{
    lemma_ordering_holds_all(o1, c1, c1);
    lemma_ordering_holds_all(o2, c2, c1);
    lemma_key_sorted_unique(o1, o2, |x: ChunkView| x.0);
}

/// The selection does not depend on the order in which the walk met the
/// candidates: two walks that meet the same candidates select the same
/// paths in the same order.
pub proof fn lemma_selection_ignores_walk_order(
    c1: Seq<Candidate>,
    c2: Seq<Candidate>,
    root: Seq<char>,
    patterns: Seq<Seq<char>>,
    ignore_tests: bool,
    r1: Seq<Seq<char>>,
    r2: Seq<Seq<char>>,
)
    requires
        forall|x: Candidate| c1.contains(x) <==> c2.contains(x),
        sorted_set(r1, |p: Seq<char>| chosen_by_patterns(c1, root, patterns, ignore_tests, p)),
        sorted_set(r2, |p: Seq<char>| chosen_by_patterns(c2, root, patterns, ignore_tests, p)),
    ensures
        r1 == r2,
{
    assert forall|p: Seq<char>| r1.contains(p) <==> r2.contains(p) by {
        if chosen_by_patterns(c1, root, patterns, ignore_tests, p) {
            let i = choose|i: int|
                0 <= i < c1.len() && admitted(#[trigger] c1[i], root, ignore_tests)
                    && any_match(patterns, below_root(c1[i].path@, root))
                    && c1[i].path@ == p;
            assert(c1.contains(c1[i]));
            let j = choose|j: int| 0 <= j < c2.len() && c2[j] == c1[i];
            assert(admitted(c2[j], root, ignore_tests));
        }
        if chosen_by_patterns(c2, root, patterns, ignore_tests, p) {
            let i = choose|i: int|
                0 <= i < c2.len() && admitted(#[trigger] c2[i], root, ignore_tests)
                    && any_match(patterns, below_root(c2[i].path@, root))
                    && c2[i].path@ == p;
            assert(c2.contains(c2[i]));
            let j = choose|j: int| 0 <= j < c1.len() && c1[j] == c2[i];
            assert(admitted(c1[j], root, ignore_tests));
        }
    }
    lemma_key_sorted_unique(r1, r2, |x: Seq<char>| x);
}

} // verus!

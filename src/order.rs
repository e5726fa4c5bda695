//! The order of paths: code-point lexicographic order, sorting without
//! duplicates, and why a sorted result is determined by its elements.
use vstd::prelude::*;

verus! {

/// `a` comes strictly before `b` in code-point lexicographic order (the
/// order of the UTF-8 bytes).
pub open spec fn lex_lt(a: Seq<char>, b: Seq<char>) -> bool
    decreases a.len(),
{
    if b.len() == 0 {
        false
    } else if a.len() == 0 {
        true
    } else if a[0] != b[0] {
        a[0] < b[0]
    } else {
        lex_lt(a.drop_first(), b.drop_first())
    }
}

/// No text comes before itself.
pub proof fn lemma_lex_irreflexive(a: Seq<char>)
    ensures
        !lex_lt(a, a),
    decreases a.len(),
{
    if a.len() > 0 {
        lemma_lex_irreflexive(a.drop_first());
    }
}

/// Two texts are never each before the other.
pub proof fn lemma_lex_asymmetric(a: Seq<char>, b: Seq<char>)
    ensures
        !(lex_lt(a, b) && lex_lt(b, a)),
    decreases a.len(),
{
    if a.len() > 0 && b.len() > 0 && a[0] == b[0] {
        lemma_lex_asymmetric(a.drop_first(), b.drop_first());
    }
}

/// Of two different texts, one comes before the other.
pub proof fn lemma_lex_total(a: Seq<char>, b: Seq<char>)
    ensures
        a == b || lex_lt(a, b) || lex_lt(b, a),
    decreases a.len(),
{
    if a.len() == 0 && b.len() == 0 {
        assert(a =~= b);
    } else if a.len() > 0 && b.len() > 0 && a[0] != b[0] {
    } else if a.len() > 0 && b.len() > 0 && a[0] == b[0] {
        lemma_lex_total(a.drop_first(), b.drop_first());
        if a.drop_first() == b.drop_first() {
            assert(a =~= seq![a[0]] + a.drop_first());
            assert(b =~= seq![b[0]] + b.drop_first());
        }
    }
}

/// The order is transitive.
pub proof fn lemma_lex_transitive(a: Seq<char>, b: Seq<char>, c: Seq<char>)
    requires
        lex_lt(a, b),
        lex_lt(b, c),
    ensures
        lex_lt(a, c),
    decreases a.len(),
{
    if a.len() > 0 && a[0] == b[0] && b[0] == c[0] {
        lemma_lex_transitive(a.drop_first(), b.drop_first(), c.drop_first());
    }
}

/// Whether `a` comes strictly before `b`.
pub fn lex_less(a: &Vec<char>, b: &Vec<char>) -> (r: bool)
    ensures
        r == lex_lt(a@, b@),
{
    let mut i: usize = 0;
    assert(a@.skip(0) =~= a@);
    assert(b@.skip(0) =~= b@);
    loop
        invariant
            i <= a@.len(),
            i <= b@.len(),
            lex_lt(a@, b@) == lex_lt(a@.skip(i as int), b@.skip(i as int)),
        decreases a@.len() - i,
    {
        if i == b.len() {
            return false;
        }
        if i == a.len() {
            return true;
        }
        if a[i] != b[i] {
            return a[i] < b[i];
        }
        assert(a@.skip(i as int).drop_first() =~= a@.skip(i + 1));
        assert(b@.skip(i as int).drop_first() =~= b@.skip(i + 1));
        i = i + 1;
    }
}

/// The elements of `s` strictly increase by `key`.
pub open spec fn key_sorted<A>(s: Seq<A>, key: spec_fn(A) -> Seq<char>) -> bool {
    forall|i: int, j: int|
        0 <= i < j < s.len() ==> lex_lt(key(#[trigger] s[i]), key(#[trigger] s[j]))
}

/// Two sequences that strictly increase by the same key and hold the same
/// elements are equal: such a sequence is determined by its elements.
pub proof fn lemma_key_sorted_unique<A>(s1: Seq<A>, s2: Seq<A>, key: spec_fn(A) -> Seq<char>)
    requires
        key_sorted(s1, key),
        key_sorted(s2, key),
        forall|x: A| s1.contains(x) <==> s2.contains(x),
    ensures
        s1 == s2,
    decreases s1.len() + s2.len(),
{
    if s1.len() == 0 || s2.len() == 0 {
        if s2.len() > 0 {
            assert(s2.contains(s2[0]));
        }
        if s1.len() > 0 {
            assert(s1.contains(s1[0]));
        }
        assert(s1 =~= s2);
    } else {
        let x = s1[0];
        let y = s2[0];
        assert(s1.contains(x));
        assert(s2.contains(y));
        if x != y {
            let j = choose|j: int| 0 <= j < s2.len() && s2[j] == x;
            let i = choose|i: int| 0 <= i < s1.len() && s1[i] == y;
            assert(lex_lt(key(y), key(x)));
            assert(lex_lt(key(x), key(y)));
            lemma_lex_asymmetric(key(x), key(y));
        }
        let t1 = s1.drop_first();
        let t2 = s2.drop_first();
        assert forall|z: A| t1.contains(z) implies t2.contains(z) by {
            let i = choose|i: int| 0 <= i < t1.len() && t1[i] == z;
            assert(s1[i + 1] == z);
            assert(s1.contains(z));
            let j = choose|j: int| 0 <= j < s2.len() && s2[j] == z;
            if j == 0 {
                assert(lex_lt(key(s1[0]), key(s1[i + 1])));
                lemma_lex_irreflexive(key(z));
            } else {
                assert(t2[j - 1] == z);
            }
        }
        assert forall|z: A| t2.contains(z) implies t1.contains(z) by {
            let j = choose|j: int| 0 <= j < t2.len() && t2[j] == z;
            assert(s2[j + 1] == z);
            assert(s2.contains(z));
            let i = choose|i: int| 0 <= i < s1.len() && s1[i] == z;
            if i == 0 {
                assert(lex_lt(key(s2[0]), key(s2[j + 1])));
                lemma_lex_irreflexive(key(z));
            } else {
                assert(t1[i - 1] == z);
            }
        }
        assert(key_sorted(t1, key)) by {
            assert forall|i: int, j: int| 0 <= i < j < t1.len() implies lex_lt(
                key(#[trigger] t1[i]),
                key(#[trigger] t1[j]),
            ) by {
                assert(t1[i] == s1[i + 1] && t1[j] == s1[j + 1]);
            }
        }
        assert(key_sorted(t2, key)) by {
            assert forall|i: int, j: int| 0 <= i < j < t2.len() implies lex_lt(
                key(#[trigger] t2[i]),
                key(#[trigger] t2[j]),
            ) by {
                assert(t2[i] == s2[i + 1] && t2[j] == s2[j + 1]);
            }
        }
        lemma_key_sorted_unique(t1, t2, key);
        assert(s1 =~= seq![x] + t1);
        assert(s2 =~= seq![y] + t2);
    }
}

/// The keys at the positions `r` strictly increase.
pub open spec fn increasing_at(keys: Seq<Vec<char>>, r: Seq<usize>) -> bool {
    forall|a: int, b: int|
        0 <= a < b < r.len() ==> lex_lt(
            keys[#[trigger] r[a] as int]@,
            keys[#[trigger] r[b] as int]@,
        )
}

/// Some position listed in `r` holds the key `k`.
pub open spec fn key_listed(keys: Seq<Vec<char>>, r: Seq<usize>, k: Seq<char>) -> bool {
    exists|a: int| 0 <= a < r.len() && (#[trigger] keys[r[a] as int])@ == k
}

/// The positions, in `keys`, of the distinct keys of `keys` in increasing
/// order: one position for each distinct key.
pub fn sorted_positions(keys: &Vec<Vec<char>>) -> (r: Vec<usize>)
    ensures
        forall|a: int| 0 <= a < r@.len() ==> #[trigger] r@[a] < keys@.len(),
        increasing_at(keys@, r@),
        forall|j: int| 0 <= j < keys@.len() ==> key_listed(keys@, r@, #[trigger] keys@[j]@),
{
    let mut out: Vec<usize> = Vec::new();
    let mut i: usize = 0;
    while i < keys.len()
        invariant
            i <= keys@.len(),
            forall|a: int| 0 <= a < out@.len() ==> #[trigger] out@[a] < keys@.len(),
            increasing_at(keys@, out@),
            forall|j: int| 0 <= j < i ==> key_listed(keys@, out@, #[trigger] keys@[j]@),
        decreases keys@.len() - i,
    {
        let x = &keys[i];
        let mut k: usize = 0;
        while k < out.len() && lex_less(&keys[out[k]], x)
            invariant
                k <= out@.len(),
                i < keys@.len(),
                x@ == keys@[i as int]@,
                forall|a: int| 0 <= a < out@.len() ==> #[trigger] out@[a] < keys@.len(),
                forall|a: int| 0 <= a < k ==> lex_lt(keys@[#[trigger] out@[a] as int]@, x@),
            decreases out@.len() - k,
        {
            k = k + 1;
        }
        if k < out.len() && !lex_less(x, &keys[out[k]]) {
            proof {
                lemma_lex_total(keys@[out@[k as int] as int]@, x@);
            }
            assert(keys@[out@[k as int] as int]@ == keys@[i as int]@);
        } else {
            let ghost old_out = out@;
            proof {
                if k < out@.len() {
                    lemma_lex_total(keys@[out@[k as int] as int]@, x@);
                }
            }
            out.insert(k, i);
            assert(out@ == old_out.insert(k as int, i));
            assert forall|a: int, b: int|
                0 <= a < b < out@.len() implies lex_lt(
                keys@[#[trigger] out@[a] as int]@,
                keys@[#[trigger] out@[b] as int]@,
            ) by {
                if b == k {
                    assert(out@[a] == old_out[a]);
                } else if a == k {
                    assert(out@[b] == old_out[b - 1]);
                    if b - 1 > k {
                        let next = keys@[old_out[k as int] as int]@;
                        let later = keys@[old_out[b - 1] as int]@;
                        assert(lex_lt(next, later));
                        lemma_lex_transitive(x@, next, later);
                    }
                } else if a < k && b > k {
                    assert(out@[a] == old_out[a]);
                    assert(out@[b] == old_out[b - 1]);
                    assert(lex_lt(keys@[old_out[a] as int]@, keys@[old_out[b - 1] as int]@));
                } else if b < k {
                    assert(out@[a] == old_out[a] && out@[b] == old_out[b]);
                } else {
                    assert(out@[a] == old_out[a - 1] && out@[b] == old_out[b - 1]);
                }
            }
            assert forall|j: int| 0 <= j < i implies key_listed(
                keys@,
                out@,
                #[trigger] keys@[j]@,
            ) by {
                let a0 = choose|a: int|
                    0 <= a < old_out.len() && keys@[old_out[a] as int]@ == keys@[j]@;
                if a0 < k {
                    assert(out@[a0] == old_out[a0]);
                } else {
                    assert(out@[a0 + 1] == old_out[a0]);
                }
            }
            assert(out@[k as int] == i);
            assert forall|a: int| 0 <= a < out@.len() implies #[trigger] out@[a] < keys@.len() by {
                if a < k {
                    assert(out@[a] == old_out[a]);
                } else if a > k {
                    assert(out@[a] == old_out[a - 1]);
                }
            }
        }
        i = i + 1;
    }
    out
}

} // verus!

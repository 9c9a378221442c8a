//! Lexicographic order on sequences, the order in which byte strings and texts
//! sort.
use vstd::prelude::*;

verus! {

/// `a` and `b` hold the same items at every index below `k`.
pub open spec fn agree_below<T>(a: Seq<T>, b: Seq<T>, k: int) -> bool {
    &&& 0 <= k <= a.len()
    &&& k <= b.len()
    &&& forall|i: int| 0 <= i < k ==> a[i] == b[i]
}

/// Index `k` decides that `a` sorts before `b`: the two agree below `k`, and
/// there `a` has ended, or holds an item of lower rank, while `b` has not ended.
pub open spec fn below_at<T>(a: Seq<T>, b: Seq<T>, rank: spec_fn(T) -> int, k: int) -> bool {
    &&& agree_below(a, b, k)
    &&& k < b.len()
    &&& (k == a.len() || rank(a[k]) < rank(b[k]))
}

/// `a` sorts strictly before `b` when items are ranked by `rank`.
pub open spec fn lex_less<T>(a: Seq<T>, b: Seq<T>, rank: spec_fn(T) -> int) -> bool {
    exists|k: int| below_at(a, b, rank, k)
}

/// Byte strings in the order of `[u8]`.
pub open spec fn bytes_less(a: Seq<u8>, b: Seq<u8>) -> bool {
    lex_less(a, b, |x: u8| x as int)
}

/// Texts in the order of `str`: by code point.
pub open spec fn text_less(a: Seq<char>, b: Seq<char>) -> bool {
    lex_less(a, b, |c: char| c as int)
}

/// Of two sequences, at most one sorts before the other.
pub proof fn lemma_lex_asymmetric<T>(a: Seq<T>, b: Seq<T>, rank: spec_fn(T) -> int)
    requires
        lex_less(a, b, rank),
    ensures
        !lex_less(b, a, rank),
        a != b,
{
    let k = choose|k: int| below_at(a, b, rank, k);
    if lex_less(b, a, rank) {
        let j = choose|j: int| below_at(b, a, rank, j);
        if k < j {
            assert(b[k] == a[k]);
        } else if j < k {
            assert(a[j] == b[j]);
        }
    }
    if a == b {
        assert(k < a.len());
    }
}

/// Two sequences of one length that differ have a first index at which they
/// differ.
pub proof fn lemma_first_difference<T>(a: Seq<T>, b: Seq<T>) -> (k: int)
    requires
        a.len() == b.len(),
        a != b,
    ensures
        agree_below(a, b, k),
        k < a.len(),
        a[k] != b[k],
{
    lemma_difference_from(a, b, 0)
}

proof fn lemma_difference_from<T>(a: Seq<T>, b: Seq<T>, from: int) -> (k: int)
    requires
        a.len() == b.len(),
        a != b,
        agree_below(a, b, from),
    ensures
        agree_below(a, b, k),
        k < a.len(),
        a[k] != b[k],
    decreases a.len() - from,
{
    if from == a.len() {
        assert(a =~= b);
        from
    } else if a[from] != b[from] {
        from
    } else {
        lemma_difference_from(a, b, from + 1)
    }
}

/// Under a rank that tells items apart, two different sequences of one length
/// sort one before the other.
pub proof fn lemma_lex_total<T>(a: Seq<T>, b: Seq<T>, rank: spec_fn(T) -> int)
    requires
        a.len() == b.len(),
        a != b,
        forall|x: T, y: T| #[trigger] rank(x) == #[trigger] rank(y) ==> x == y,
    ensures
        lex_less(a, b, rank) || lex_less(b, a, rank),
{
    let k = lemma_first_difference(a, b);
    if rank(a[k]) < rank(b[k]) {
        assert(below_at(a, b, rank, k));
    } else {
        assert(rank(a[k]) != rank(b[k]));
        assert(below_at(b, a, rank, k));
    }
}

/// Where two sequences of one length first differ, the ranks of the two items
/// there decide which sorts first.
pub proof fn lemma_lex_at_first_difference<T>(
    a: Seq<T>,
    b: Seq<T>,
    rank: spec_fn(T) -> int,
    k: int,
)
    requires
        a.len() == b.len(),
        agree_below(a, b, k),
        k < a.len(),
        a[k] != b[k],
    ensures
        lex_less(a, b, rank) <==> rank(a[k]) < rank(b[k]),
{
    if lex_less(a, b, rank) {
        let j = choose|j: int| below_at(a, b, rank, j);
        if j < k {
            assert(a[j] == b[j]);
        } else if k < j {
            assert(a[k] == b[k]);
        }
    }
    if rank(a[k]) < rank(b[k]) {
        assert(below_at(a, b, rank, k));
    }
}

} // verus!

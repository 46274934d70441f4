use vstd::prelude::*;
use vstd::multiset::Multiset;

verus! {

/// Number of `true` entries in `s`.
pub open spec fn count_true(s: Seq<bool>) -> int
    decreases s.len(),
{
    if s.len() == 0 {
        0
    } else {
        count_true(s.drop_last()) + if s.last() { 1int } else { 0int }
    }
}

/// Sum of `f(i)` for `0 <= i < n`.
pub open spec fn sum_to(f: spec_fn(int) -> int, n: int) -> int
    decreases n,
{
    if n <= 0 {
        0
    } else {
        sum_to(f, n - 1) + f(n - 1)
    }
}

/// A sequence with no `true` count has only `false` entries.
pub proof fn lemma_count_zero(s: Seq<bool>)
    ensures
        count_true(s) >= 0,
        count_true(s) == 0 ==> forall|i: int| 0 <= i < s.len() ==> !#[trigger] s[i],
    decreases s.len(),
{
    if s.len() > 0 {
        lemma_count_zero(s.drop_last());
        if count_true(s) == 0 {
            assert forall|i: int| 0 <= i < s.len() implies !#[trigger] s[i] by {
                if i < s.len() - 1 {
                    assert(s[i] == s.drop_last()[i]);
                }
            }
        }
    }
}

/// A sum of entries that are not negative is 0 only when each entry is.
pub proof fn lemma_sum_zero_parts(f: spec_fn(int) -> int, n: int)
    requires
        forall|i: int| 0 <= i < n ==> #[trigger] f(i) >= 0,
    ensures
        sum_to(f, n) >= 0,
        sum_to(f, n) == 0 ==> forall|i: int| 0 <= i < n ==> #[trigger] f(i) == 0,
    decreases n,
{
    if n > 0 {
        lemma_sum_zero_parts(f, n - 1);
    }
}

pub proof fn lemma_count_concat(a: Seq<bool>, b: Seq<bool>)
    ensures
        count_true(a + b) == count_true(a) + count_true(b),
    decreases b.len(),
{
    if b.len() == 0 {
        assert(a + b =~= a);
    } else {
        lemma_count_concat(a, b.drop_last());
        assert((a + b).drop_last() =~= a + b.drop_last());
    }
}

/// The count of `true` entries is what the multiset of the entries says.
pub proof fn lemma_count_multiset(s: Seq<bool>)
    ensures
        count_true(s) == s.to_multiset().count(true),
    decreases s.len(),
{
    broadcast use vstd::seq_lib::group_to_multiset_ensures;
    if s.len() == 0 {
        assert(s.to_multiset() =~= Multiset::empty());
    } else {
        let p = s.drop_last();
        lemma_count_multiset(p);
        assert(p.push(s.last()) =~= s);
        assert(s.to_multiset() =~= p.to_multiset().insert(s.last()));
    }
}

pub proof fn lemma_sum_congruent(f: spec_fn(int) -> int, g: spec_fn(int) -> int, n: int)
    requires
        forall|i: int| 0 <= i < n ==> #[trigger] f(i) == g(i),
    ensures
        sum_to(f, n) == sum_to(g, n),
    decreases n,
{
    if n > 0 {
        lemma_sum_congruent(f, g, n - 1);
    }
}

pub proof fn lemma_sum_add(f: spec_fn(int) -> int, g: spec_fn(int) -> int, n: int)
    ensures
        sum_to(|i: int| f(i) + g(i), n) == sum_to(f, n) + sum_to(g, n),
    decreases n,
{
    if n > 0 {
        lemma_sum_add(f, g, n - 1);
    }
}

pub proof fn lemma_sum_zero(f: spec_fn(int) -> int, n: int)
    requires
        forall|i: int| 0 <= i < n ==> #[trigger] f(i) == 0,
    ensures
        sum_to(f, n) == 0,
    decreases n,
{
    if n > 0 {
        lemma_sum_zero(f, n - 1);
    }
}

/// Sum of `f(i, j)` over `0 <= j < n`.
pub open spec fn row_sum(f: spec_fn(int, int) -> int, i: int, n: int) -> int {
    sum_to(|j: int| f(i, j), n)
}

/// Sum of `f(i, j)` over `0 <= i < m`.
pub open spec fn col_sum(f: spec_fn(int, int) -> int, j: int, m: int) -> int {
    sum_to(|i: int| f(i, j), m)
}

/// Two finite sums may be taken in either order.
pub proof fn lemma_sum_swap(f: spec_fn(int, int) -> int, m: int, n: int)
    requires
        m >= 0,
    ensures
        sum_to(|i: int| row_sum(f, i, n), m) == sum_to(|j: int| col_sum(f, j, m), n),
    decreases m,
{
    if m == 0 {
        lemma_sum_zero(|j: int| col_sum(f, j, m), n);
    } else {
        lemma_sum_swap(f, m - 1, n);
        let prev = |j: int| col_sum(f, j, m - 1);
        let last = |j: int| f(m - 1, j);
        lemma_sum_add(prev, last, n);
        lemma_sum_congruent(|j: int| col_sum(f, j, m), |j: int| prev(j) + last(j), n);
    }
}

/// Sum of the entries of `s`.
pub open spec fn seq_sum(s: Seq<int>) -> int
    decreases s.len(),
{
    if s.len() == 0 {
        0
    } else {
        seq_sum(s.drop_last()) + s.last()
    }
}

/// A sum of entries that all equal `c`.
pub proof fn lemma_seq_sum_const(s: Seq<int>, c: int)
    requires
        forall|i: int| 0 <= i < s.len() ==> #[trigger] s[i] == c,
    ensures
        seq_sum(s) == s.len() * c,
    decreases s.len(),
{
    if s.len() > 0 {
        lemma_seq_sum_const(s.drop_last(), c);
        assert(s.len() * c == (s.len() - 1) * c + c) by (nonlinear_arith);
    }
}

} // verus!

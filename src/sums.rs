use vstd::prelude::*;

verus! {

/// The sum of `f` over the elements of `s`.
pub open spec fn seq_sum<T>(s: Seq<T>, f: spec_fn(T) -> int) -> int
    decreases s.len(),
{
    if s.len() == 0 {
        0
    } else {
        seq_sum(s.drop_last(), f) + f(s.last())
    }
}

pub proof fn lemma_sum_concat<T>(a: Seq<T>, b: Seq<T>, f: spec_fn(T) -> int)
    ensures
        seq_sum(a + b, f) == seq_sum(a, f) + seq_sum(b, f),
    decreases b.len(),
{
    if b.len() == 0 {
        assert(a + b =~= a);
    } else {
        assert((a + b).drop_last() =~= a + b.drop_last());
        lemma_sum_concat(a, b.drop_last(), f);
    }
}

pub proof fn lemma_sum_single<T>(x: T, f: spec_fn(T) -> int)
    ensures
        seq_sum(seq![x], f) == f(x),
{
    assert(seq![x].drop_last() =~= Seq::<T>::empty());
    assert(seq![x].last() == x);
    assert(seq_sum(Seq::<T>::empty(), f) == 0);
    reveal_with_fuel(seq_sum, 2);
}

pub proof fn lemma_sum_update<T>(s: Seq<T>, k: int, x: T, f: spec_fn(T) -> int)
    requires
        0 <= k < s.len(),
    ensures
        seq_sum(s.update(k, x), f) == seq_sum(s, f) - f(s[k]) + f(x),
{
    let pre = s.subrange(0, k);
    let post = s.subrange(k + 1, s.len() as int);
    assert(s =~= pre + seq![s[k]] + post);
    assert(s.update(k, x) =~= pre + seq![x] + post);
    lemma_sum_concat(pre + seq![s[k]], post, f);
    lemma_sum_concat(pre, seq![s[k]], f);
    lemma_sum_concat(pre + seq![x], post, f);
    lemma_sum_concat(pre, seq![x], f);
    lemma_sum_single(s[k], f);
    lemma_sum_single(x, f);
}

pub proof fn lemma_sum_insert<T>(s: Seq<T>, k: int, x: T, f: spec_fn(T) -> int)
    requires
        0 <= k <= s.len(),
    ensures
        seq_sum(s.insert(k, x), f) == seq_sum(s, f) + f(x),
{
    let pre = s.subrange(0, k);
    let post = s.subrange(k, s.len() as int);
    assert(s =~= pre + post);
    assert(s.insert(k, x) =~= pre + seq![x] + post);
    lemma_sum_concat(pre, post, f);
    lemma_sum_concat(pre + seq![x], post, f);
    lemma_sum_concat(pre, seq![x], f);
    lemma_sum_single(x, f);
}

pub proof fn lemma_sum_remove<T>(s: Seq<T>, k: int, f: spec_fn(T) -> int)
    requires
        0 <= k < s.len(),
    ensures
        seq_sum(s.remove(k), f) == seq_sum(s, f) - f(s[k]),
{
    let pre = s.subrange(0, k);
    let post = s.subrange(k + 1, s.len() as int);
    assert(s =~= pre + seq![s[k]] + post);
    assert(s.remove(k) =~= pre + post);
    lemma_sum_concat(pre + seq![s[k]], post, f);
    lemma_sum_concat(pre, seq![s[k]], f);
    lemma_sum_concat(pre, post, f);
    lemma_sum_single(s[k], f);
}

pub proof fn lemma_sum_push<T>(s: Seq<T>, x: T, f: spec_fn(T) -> int)
    ensures
        seq_sum(s.push(x), f) == seq_sum(s, f) + f(x),
{
    assert(s.push(x).drop_last() =~= s);
}

/// A sum of terms that are all at least zero is at least zero, and at least each term.
pub proof fn lemma_sum_nonneg<T>(s: Seq<T>, f: spec_fn(T) -> int)
    requires
        forall|i: int| 0 <= i < s.len() ==> f(#[trigger] s[i]) >= 0,
    ensures
        seq_sum(s, f) >= 0,
        forall|i: int| 0 <= i < s.len() ==> f(#[trigger] s[i]) <= seq_sum(s, f),
    decreases s.len(),
{
    if s.len() > 0 {
        let d = s.drop_last();
        assert forall|i: int| 0 <= i < d.len() implies f(#[trigger] d[i]) >= 0 by {
            assert(d[i] == s[i]);
        }
        lemma_sum_nonneg(d, f);
        assert forall|i: int| 0 <= i < s.len() implies f(#[trigger] s[i]) <= seq_sum(s, f) by {
            if i < s.len() - 1 {
                assert(d[i] == s[i]);
            }
        }
    }
}

/// Sums of two functions that agree on every element are equal.
pub proof fn lemma_sum_ext<T>(s: Seq<T>, f: spec_fn(T) -> int, g: spec_fn(T) -> int)
    requires
        forall|i: int| 0 <= i < s.len() ==> f(#[trigger] s[i]) == g(s[i]),
    ensures
        seq_sum(s, f) == seq_sum(s, g),
    decreases s.len(),
{
    if s.len() > 0 {
        let d = s.drop_last();
        assert forall|i: int| 0 <= i < d.len() implies f(#[trigger] d[i]) == g(d[i]) by {
            assert(d[i] == s[i]);
        }
        lemma_sum_ext(d, f, g);
    }
}

/// A sum of terms that are all at least zero is at least any two of its terms.
pub proof fn lemma_sum_two<T>(s: Seq<T>, f: spec_fn(T) -> int, i: int, j: int)
    requires
        forall|k: int| 0 <= k < s.len() ==> f(#[trigger] s[k]) >= 0,
        0 <= i < s.len(),
        0 <= j < s.len(),
        i != j,
    ensures
        seq_sum(s, f) >= f(s[i]) + f(s[j]),
{
    let r = s.remove(i);
    lemma_sum_remove(s, i, f);
    let j2 = if j < i { j } else { j - 1 };
    assert(r[j2] == s[j]);
    assert forall|k: int| 0 <= k < r.len() implies f(#[trigger] r[k]) >= 0 by {
        let k0 = if k < i { k } else { k + 1 };
        assert(r[k] == s[k0]);
    }
    lemma_sum_nonneg(r, f);
}

} // verus!

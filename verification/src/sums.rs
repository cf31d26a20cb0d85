//! Sums over timing samples, and what does not depend on their order.

use vstd::prelude::*;
use vstd::seq_lib::*;

verus! {

/// The sum of the samples.
pub open spec fn sum(s: Seq<u32>) -> nat
    decreases s.len(),
{
    if s.len() == 0 {
        0
    } else {
        sum(s.drop_last()) + s.last() as nat
    }
}

/// The sum of the squares of the samples.
pub open spec fn sum_sq(s: Seq<u32>) -> nat
    decreases s.len(),
{
    if s.len() == 0 {
        0
    } else {
        sum_sq(s.drop_last()) + (s.last() as nat) * (s.last() as nat)
    }
}

/// `n` times the sum of the squared distances of the samples from their mean,
/// which is `n * sum_sq - sum * sum`. Divided by `n * (n - 1)` it is the
/// sample variance.
pub open spec fn spread(s: Seq<u32>) -> int {
    s.len() * sum_sq(s) - sum(s) * sum(s)
}

/// The sum of the squared distances of the samples from `x`.
pub open spec fn dev_sq(s: Seq<u32>, x: int) -> int
    decreases s.len(),
{
    if s.len() == 0 {
        0
    } else {
        dev_sq(s.drop_last(), x) + (s.last() - x) * (s.last() - x)
    }
}

/// The sum of `n` samples is at most `n` times the largest sample value, and
/// the sum of their squares at most `n` times its square.
pub proof fn lemma_sum_bounds(s: Seq<u32>)
    ensures
        sum(s) <= s.len() * 0xffff_ffff,
        sum_sq(s) <= s.len() * 0xffff_fffe_0000_0001,
    decreases s.len(),
{
    if s.len() > 0 {
        lemma_sum_bounds(s.drop_last());
        let x = s.last() as int;
        assert(x * x <= 0xffff_fffe_0000_0001) by (nonlinear_arith)
            requires
                0 <= x <= 0xffff_ffff,
        ;
    }
}

proof fn lemma_dev_sq(s: Seq<u32>, x: int)
    ensures
        dev_sq(s, x) >= 0,
        dev_sq(s, x) == sum_sq(s) - 2 * x * sum(s) + s.len() * x * x,
    decreases s.len(),
{
    let q_all = sum_sq(s) as int;
    let p_all = sum(s) as int;
    let n_all = s.len() as int;
    if s.len() > 0 {
        let t = s.drop_last();
        let y = s.last() as int;
        lemma_dev_sq(t, x);
        let q = sum_sq(t) as int;
        let p = sum(t) as int;
        let n = t.len() as int;
        assert((y - x) * (y - x) >= 0) by (nonlinear_arith);
        assert(q - 2 * x * p + n * x * x + (y - x) * (y - x) == q_all - 2 * x * p_all + n_all * x * x)
            by (nonlinear_arith)
            requires
                q_all == q + y * y,
                p_all == p + y,
                n_all == n + 1,
        ;
    } else {
        assert(q_all - 2 * x * p_all + n_all * x * x == 0) by (nonlinear_arith)
            requires
                q_all == 0,
                p_all == 0,
                n_all == 0,
        ;
    }
}

/// One more sample widens the spread by its squared distances from the others.
proof fn lemma_spread_push(t: Seq<u32>, y: u32)
    ensures
        spread(t.push(y)) == spread(t) + dev_sq(t, y as int),
{
    let s = t.push(y);
    assert(s.drop_last() =~= t);
    lemma_dev_sq(t, y as int);
    let q = sum_sq(t) as int;
    let p = sum(t) as int;
    let n = t.len() as int;
    let x = y as int;
    let q_all = sum_sq(s) as int;
    let p_all = sum(s) as int;
    let n_all = s.len() as int;
    let xx = x * x;
    assert(n_all * q_all == n * q + n * xx + q + xx) by (nonlinear_arith)
        requires
            q_all == q + xx,
            n_all == n + 1,
    ;
    assert(p_all * p_all == p * p + 2 * (x * p) + xx) by (nonlinear_arith)
        requires
            p_all == p + x,
            xx == x * x,
    ;
    assert(2 * x * p == 2 * (x * p)) by (nonlinear_arith);
    assert(n * x * x == n * xx) by (nonlinear_arith)
        requires
            xx == x * x,
    ;
}

/// The spread is never negative.
pub proof fn lemma_spread_nonnegative(s: Seq<u32>)
    ensures
        spread(s) >= 0,
    decreases s.len(),
{
    if s.len() > 0 {
        let t = s.drop_last();
        lemma_spread_nonnegative(t);
        lemma_spread_push(t, s.last());
        lemma_dev_sq(t, s.last() as int);
        assert(t.push(s.last()) =~= s);
    } else {
        assert(0 * sum_sq(s) - sum(s) * sum(s) == 0) by (nonlinear_arith)
            requires
                sum(s) == 0,
        ;
    }
}

/// Taking one sample out lowers the sums by that sample.
proof fn lemma_sum_remove(s: Seq<u32>, i: int)
    requires
        0 <= i < s.len(),
    ensures
        sum(s) == sum(s.remove(i)) + s[i],
        sum_sq(s) == sum_sq(s.remove(i)) + (s[i] as nat) * (s[i] as nat),
    decreases s.len(),
{
    if i == s.len() - 1 {
        assert(s.remove(i) =~= s.drop_last());
    } else {
        lemma_sum_remove(s.drop_last(), i);
        assert(s.remove(i).drop_last() =~= s.drop_last().remove(i));
        assert(s.remove(i).last() == s.last());
    }
}

/// The sums of two sample lists that hold the same samples, in whatever
/// order, are the same.
pub proof fn lemma_sums_of_permutation(a: Seq<u32>, b: Seq<u32>)
    requires
        a.to_multiset() == b.to_multiset(),
    ensures
        a.len() == b.len(),
        sum(a) == sum(b),
        sum_sq(a) == sum_sq(b),
        spread(a) == spread(b),
    decreases a.len(),
{
    a.to_multiset_ensures();
    b.to_multiset_ensures();
    if a.len() > 0 {
        let x = a.last();
        assert(a.contains(x)) by {
            assert(a[a.len() - 1] == x);
        }
        assert(b.to_multiset().count(x) > 0);
        assert(b.contains(x));
        let j = choose|j: int| 0 <= j < b.len() && b[j] == x;
        let a1 = a.remove(a.len() - 1);
        assert(a1 =~= a.drop_last());
        let b1 = b.remove(j);
        assert(a1.to_multiset() == b1.to_multiset());
        lemma_sums_of_permutation(a1, b1);
        lemma_sum_remove(b, j);
    }
}

} // verus!

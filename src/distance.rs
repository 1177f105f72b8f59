//! The default metric: squared Euclidean distance between rating vectors.
//! It orders pairs exactly as the Euclidean distance does, and stays exact
//! on integers.
use vstd::prelude::*;

verus! {

/// Sum of the squared differences of the first `n` components.
pub open spec fn sum_sq(a: Seq<u16>, b: Seq<u16>, n: nat) -> int
    decreases n,
{
    if n == 0 {
        0
    } else {
        let i = n - 1;
        let diff = a[i] as int - b[i] as int;
        sum_sq(a, b, i as nat) + diff * diff
    }
}

/// Squared Euclidean distance between two vectors of the same length.
pub open spec fn sq_dist(a: Seq<u16>, b: Seq<u16>) -> int {
    sum_sq(a, b, a.len())
}

proof fn lemma_sum_sq_bound(a: Seq<u16>, b: Seq<u16>, n: nat)
    requires
        n <= a.len(),
        n <= b.len(),
    ensures
        0 <= sum_sq(a, b, n) <= n * (65535 * 65535),
    decreases n,
{
    if n > 0 {
        let i = (n - 1) as int;
        lemma_sum_sq_bound(a, b, (n - 1) as nat);
        let diff = a[i] as int - b[i] as int;
        assert(-65535 <= diff <= 65535);
        assert(0 <= diff * diff <= 65535 * 65535) by (nonlinear_arith)
            requires
                -65535 <= diff <= 65535,
        ;
        let m = (n - 1) as nat;
        assert(sum_sq(a, b, n) == sum_sq(a, b, m) + diff * diff);
        assert(m * (65535 * 65535) + 65535 * 65535 == n * (65535 * 65535)) by (nonlinear_arith)
            requires
                m + 1 == n,
        ;
    }
}

proof fn lemma_sum_sq_symmetric(a: Seq<u16>, b: Seq<u16>, n: nat)
    ensures
        sum_sq(a, b, n) == sum_sq(b, a, n),
        sum_sq(a, a, n) == 0,
    decreases n,
{
    if n > 0 {
        let i = (n - 1) as int;
        lemma_sum_sq_symmetric(a, b, (n - 1) as nat);
        let diff = a[i] as int - b[i] as int;
        assert(diff * diff == (-diff) * (-diff)) by (nonlinear_arith);
    }
}

/// The default metric is symmetric, and every vector is at distance zero
/// from itself.
pub proof fn lemma_distance_symmetric(a: Seq<u16>, b: Seq<u16>)
    requires
        a.len() == b.len(),
    ensures
        sq_dist(a, b) == sq_dist(b, a),
        sq_dist(a, a) == 0,
{
    lemma_sum_sq_symmetric(a, b, a.len());
}

/// Squared Euclidean distance between `a` and `b`.
pub fn squared_euclid(a: &Vec<u16>, b: &Vec<u16>) -> (r: u128)
    requires
        a.len() == b.len(),
    ensures
        r == sq_dist(a@, b@),
{
    let mut acc: u128 = 0;
    let mut i: usize = 0;
    while i < a.len()
        invariant
            a.len() == b.len(),
            i <= a.len(),
            acc == sum_sq(a@, b@, i as nat),
        decreases a.len() - i,
    {
        let x = a[i];
        let y = b[i];
        let diff: u128 = if x > y {
            (x - y) as u128
        } else {
            (y - x) as u128
        };
        proof {
            lemma_sum_sq_bound(a@, b@, (i + 1) as nat);
            let d = x as int - y as int;
            assert(diff * diff == d * d) by (nonlinear_arith)
                requires
                    diff == d || diff == -d,
            ;
            assert(sum_sq(a@, b@, (i + 1) as nat) == acc + d * d);
            assert((i + 1) * (65535 * 65535) <= 0x1_0000_0000_0000_0000 * (65535 * 65535)) by (
            nonlinear_arith)
                requires
                    i + 1 <= 0x1_0000_0000_0000_0000,
            ;
        }
        acc = acc + diff * diff;
        i = i + 1;
    }
    acc
}

} // verus!

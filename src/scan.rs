//! Exact nearest-neighbour search by brute force over a matrix of vectors.
use vstd::prelude::*;
use vstd::set_lib::{lemma_len_subset, lemma_subset_equality};
use crate::distance::{sq_dist, squared_euclid};
use crate::model::RecommendError;

verus! {

/// Row `a` ranks strictly before row `b` under distances `d`: it is nearer, or
/// as near and earlier.
pub open spec fn ranks_before(d: Seq<u128>, a: int, b: int) -> bool {
    d[a] < d[b] || (d[a] == d[b] && a < b)
}

/// `r` is the answer of a `k`-nearest scan over distances `d`: the first
/// `min(k, |d|)` rows in ascending order of distance, ties broken by row.
pub open spec fn is_nearest(d: Seq<u128>, k: int, r: Seq<usize>) -> bool {
    &&& r.len() == if k < d.len() {
        k
    } else {
        d.len() as int
    }
    &&& forall|i: int| 0 <= i < r.len() ==> #[trigger] r[i] < d.len()
    &&& forall|i: int, j: int|
        0 <= i < j < r.len() ==> ranks_before(d, #[trigger] r[i] as int, #[trigger] r[j] as int)
    &&& forall|i: int, x: usize|
        #![trigger r[i], r.contains(x)]
        0 <= i < r.len() && x < d.len() && !r.contains(x) ==> ranks_before(
            d,
            r[i] as int,
            x as int,
        )
}

/// The identifiers below `n`.
pub open spec fn below(n: usize) -> Set<usize> {
    Set::new(|x: usize| x < n)
}

proof fn lemma_below_len(n: usize)
    ensures
        below(n).finite(),
        below(n).len() == n,
    decreases n,
{
    if n > 0 {
        let m = (n - 1) as usize;
        lemma_below_len(m);
        assert(below(n) =~= below(m).insert(m));
    } else {
        assert(below(n) =~= Set::empty());
    }
}

/// Distinct identifiers below `n` number at most `n`, and exactly `n` when
/// every identifier below `n` occurs.
pub proof fn lemma_distinct_below(r: Seq<usize>, n: usize)
    requires
        r.no_duplicates(),
        forall|i: int| 0 <= i < r.len() ==> #[trigger] r[i] < n,
    ensures
        r.len() <= n,
        r.len() == n <==> forall|x: usize| x < n ==> r.contains(x),
{
    r.unique_seq_to_set();
    lemma_below_len(n);
    let s = r.to_set();
    assert(s.subset_of(below(n))) by {
        assert forall|x: usize| s.contains(x) implies below(n).contains(x) by {
            let i = choose|i: int| 0 <= i < r.len() && r[i] == x;
        }
    }
    lemma_len_subset(s, below(n));
    if r.len() == n {
        lemma_subset_equality(s, below(n));
        assert forall|x: usize| x < n implies r.contains(x) by {
            assert(below(n).contains(x));
        }
    }
    if forall|x: usize| x < n ==> r.contains(x) {
        assert(s =~= below(n));
    }
}

/// The rows of the `k` smallest distances in `d`, nearest first; rows at the
/// same distance come in row order.
pub fn select_nearest(d: &Vec<u128>, k: usize) -> (r: Vec<usize>)
    ensures
        is_nearest(d@, k as int, r@),
{
    let n = d.len();
    let want = if k < n {
        k
    } else {
        n
    };
    let mut taken: Vec<bool> = Vec::with_capacity(n);
    while taken.len() < n
        invariant
            taken.len() <= n,
            forall|x: int| 0 <= x < taken.len() ==> !taken@[x],
        decreases n - taken.len(),
    {
        taken.push(false);
    }
    let mut r: Vec<usize> = Vec::with_capacity(want);
    while r.len() < want
        invariant
            n == d@.len(),
            want <= n,
            want == if k < n {
                k
            } else {
                n
            },
            r.len() <= want,
            taken@.len() == n,
            forall|x: usize| x < n ==> (taken@[x as int] <==> r@.contains(x)),
            forall|i: int| 0 <= i < r.len() ==> #[trigger] r@[i] < n,
            forall|i: int, j: int|
                0 <= i < j < r.len() ==> ranks_before(
                    d@,
                    #[trigger] r@[i] as int,
                    #[trigger] r@[j] as int,
                ),
            forall|i: int, x: usize|
                #![trigger r@[i], r@.contains(x)]
                0 <= i < r.len() && x < n && !r@.contains(x) ==> ranks_before(
                    d@,
                    r@[i] as int,
                    x as int,
                ),
        decreases want - r.len(),
    {
        proof {
            assert(r@.no_duplicates()) by {
                assert forall|i: int, j: int| 0 <= i < r.len() && 0 <= j < r.len() && i != j
                    implies r@[i] != r@[j] by {
                    if i < j {
                        assert(ranks_before(d@, r@[i] as int, r@[j] as int));
                    } else {
                        assert(ranks_before(d@, r@[j] as int, r@[i] as int));
                    }
                }
            }
            lemma_distinct_below(r@, n);
        }
        let mut best: usize = n;
        let mut x: usize = 0;
        while x < n
            invariant
                n == d@.len(),
                taken@.len() == n,
                x <= n,
                best == n || (best < x && !taken@[best as int]),
                forall|y: usize|
                    y < x && !taken@[y as int] ==> best < n && (y == best || ranks_before(
                        d@,
                        best as int,
                        y as int,
                    )),
            decreases n - x,
        {
            if !taken[x] {
                if best == n || d[x] < d[best] {
                    best = x;
                }
            }
            x = x + 1;
        }
        proof {
            if best == n {
                assert forall|y: usize| y < n implies r@.contains(y) by {
                    assert(taken@[y as int]);
                }
            }
        }
        let ghost old_r = r@;
        r.push(best);
        taken.set(best, true);
        proof {
            assert forall|y: usize| y < n implies (taken@[y as int] <==> r@.contains(y)) by {
                if y == best {
                    assert(r@[r.len() - 1] == best);
                } else {
                    if old_r.contains(y) {
                        let i = choose|i: int| 0 <= i < old_r.len() && old_r[i] == y;
                        assert(r@[i] == y);
                    }
                    if r@.contains(y) {
                        let i = choose|i: int| 0 <= i < r.len() && r@[i] == y;
                        assert(old_r[i] == y);
                    }
                }
            }
        }
    }
    r
}

/// A scan returns at most `k` rows, and at most as many as there are.
pub proof fn lemma_nearest_bounded(d: Seq<u128>, k: int, r: Seq<usize>)
    requires
        0 <= k,
        is_nearest(d, k, r),
    ensures
        r.len() <= k,
        r.len() <= d.len(),
{
}

/// A scan for as many rows as there are returns each row exactly once, in
/// ascending order of distance.
pub proof fn lemma_nearest_full(d: Seq<u128>, r: Seq<usize>)
    requires
        is_nearest(d, d.len() as int, r),
        d.len() <= usize::MAX,
    ensures
        r.len() == d.len(),
        r.no_duplicates(),
        forall|x: usize| x < d.len() ==> r.contains(x),
        forall|i: int, j: int| 0 <= i < j < r.len() ==> d[#[trigger] r[i] as int] <= d[#[trigger] r[j] as int],
{
    assert forall|i: int, j: int| 0 <= i < r.len() && 0 <= j < r.len() && i != j implies r[i]
        != r[j] by {
        if i < j {
            assert(ranks_before(d, r[i] as int, r[j] as int));
        } else {
            assert(ranks_before(d, r[j] as int, r[i] as int));
        }
    }
    lemma_distinct_below(r, d.len() as usize);
    assert forall|i: int, j: int| 0 <= i < j < r.len() implies d[#[trigger] r[i] as int] <= d[#[trigger] r[j] as int] by {
        assert(ranks_before(d, r[i] as int, r[j] as int));
    }
}

/// Every row of `m` has `len` components.
pub open spec fn rows_match(m: Seq<Vec<u16>>, len: int) -> bool {
    forall|i: int| 0 <= i < m.len() ==> (#[trigger] m[i]).len() == len
}

/// Distances from `example` to each row of `m` under the default metric.
pub open spec fn distances(m: Seq<Vec<u16>>, example: Seq<u16>) -> Seq<u128> {
    Seq::new(m.len(), |i: int| sq_dist(m[i]@, example) as u128)
}

/// The `k` rows of `m` nearest to `example` under the metric `df`, nearest
/// first, ties broken by row. Fails with `InvalidArgument` when a row and
/// `example` differ in length; an empty matrix or `k == 0` gives no rows.
pub fn scan<D: Fn(&Vec<u16>, &Vec<u16>) -> u128>(
    m: &Vec<Vec<u16>>,
    example: &Vec<u16>,
    k: usize,
    df: D,
) -> (r: Result<Vec<usize>, RecommendError>)
    requires
        forall|a: &Vec<u16>, b: &Vec<u16>| a.len() == b.len() ==> #[trigger] df.requires((a, b)),
    ensures
        r is Err <==> !rows_match(m@, example.len() as int),
        r is Err ==> r == Err::<Vec<usize>, RecommendError>(RecommendError::InvalidArgument),
        r is Ok ==> exists|d: Seq<u128>|
            {
                &&& d.len() == m.len()
                &&& forall|i: int| 0 <= i < m.len() ==> #[trigger] df.ensures((&m[i], example), d[i])
                &&& is_nearest(d, k as int, r->Ok_0@)
            },
{
    let mut d: Vec<u128> = Vec::with_capacity(m.len());
    let mut i: usize = 0;
    while i < m.len()
        invariant
            i <= m@.len(),
            d.len() == i,
            rows_match(m@.subrange(0, i as int), example.len() as int),
            forall|a: &Vec<u16>, b: &Vec<u16>|
                a.len() == b.len() ==> #[trigger] df.requires((a, b)),
            forall|j: int| 0 <= j < i ==> #[trigger] df.ensures((&m[j], example), d@[j]),
        decreases m@.len() - i,
    {
        if m[i].len() != example.len() {
            assert(m@[i as int].len() != example.len());
            return Err(RecommendError::InvalidArgument);
        }
        let dist = df(&m[i], example);
        d.push(dist);
        i = i + 1;
        assert forall|j: int| 0 <= j < i implies (#[trigger] m@.subrange(0, i as int)[j]).len()
            == example.len() by {
            if j < i - 1 {
                assert(m@.subrange(0, i - 1)[j] == m@[j]);
            }
        }
    }
    assert(m@.subrange(0, i as int) =~= m@);
    let r = select_nearest(&d, k);
    Ok(r)
}

/// The `k` rows of `m` nearest to `example` under the default metric.
pub fn nearest(m: &Vec<Vec<u16>>, example: &Vec<u16>, k: usize) -> (r: Result<
    Vec<usize>,
    RecommendError,
>)
    ensures
        r is Err <==> !rows_match(m@, example.len() as int),
        r is Err ==> r == Err::<Vec<usize>, RecommendError>(RecommendError::InvalidArgument),
        r is Ok ==> is_nearest(distances(m@, example@), k as int, r->Ok_0@),
{
    let r = scan(m, example, k, squared_euclid);
    proof {
        if r is Ok {
            let d = choose|d: Seq<u128>|
                {
                    &&& d.len() == m.len()
                    &&& forall|i: int|
                        0 <= i < m.len() ==> #[trigger] call_ensures(
                            squared_euclid,
                            (&m[i], example),
                            d[i],
                        )
                    &&& is_nearest(d, k as int, r->Ok_0@)
                };
            assert forall|i: int| 0 <= i < m.len() implies d[i] == sq_dist(m[i]@, example@) by {
                assert(call_ensures(squared_euclid, (&m[i], example), d[i]));
            }
            assert(d =~= distances(m@, example@));
        }
    }
    r
}

} // verus!

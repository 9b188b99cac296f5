//! The canonical form of a tableau: what row reduction arrives at, and that it
//! stays there.

use vstd::prelude::*;
use crate::stabilizer::Tableau;

verus! {

/// The pivot columns `cols` describe a tableau that is reduced on one component up
/// to column `j`, with the pivot generators from `start` on: generator
/// `start + p` has the component on qubit `cols[p]`, which is below `j`, and on no
/// qubit before it; the pivot columns ascend; no other generator has the
/// component on a pivot column; and the generators after the pivot generators have
/// the component on no qubit below `j`.
pub open spec fn reduced_upto(
    t: Tableau,
    n: nat,
    x_part: bool,
    start: int,
    cols: Seq<int>,
    j: int,
) -> bool {
    &&& 0 <= start
    &&& start + cols.len() <= n
    &&& forall|p: int|
        0 <= p < cols.len() ==> 0 <= #[trigger] cols[p] < j && t.has(x_part, start + p, cols[p])
    &&& forall|p: int, c: int|
        0 <= p < cols.len() && 0 <= c < cols[p] ==> !#[trigger] t.has(x_part, start + p, c)
    &&& forall|p: int, q: int| 0 <= p < q < cols.len() ==> cols[p] < cols[q]
    &&& forall|p: int, m: int|
        0 <= p < cols.len() && 0 <= m < n && m != start + p ==> !#[trigger] t.has(
            x_part,
            m,
            cols[p],
        )
    &&& forall|r: int, c: int|
        start + cols.len() <= r < n && 0 <= c < j ==> !#[trigger] t.has(x_part, r, c)
}

/// The tableau is in canonical form: reduced on the X components with pivot
/// generators from the first on, and reduced on the Z components with the pivot
/// generators that follow those.
pub open spec fn canonical(t: Tableau, n: nat) -> bool {
    exists|xcols: Seq<int>, zcols: Seq<int>|
        #![auto]
        reduced_upto(t, n, true, 0, xcols, n as int) && reduced_upto(
            t,
            n,
            false,
            xcols.len() as int,
            zcols,
            n as int,
        )
}

/// What exchanging two generators does to the components.
pub proof fn lemma_swapped_has(t: Tableau, n: nat, a: int, b: int)
    requires
        t.square(n),
        0 <= a < n,
        0 <= b < n,
    ensures
        t.swapped(a, b).square(n),
        forall|y: bool, r: int, c: int|
            0 <= r < n ==> #[trigger] t.swapped(a, b).has(y, r, c) == t.has(
                y,
                if r == a {
                    b
                } else if r == b {
                    a
                } else {
                    r
                },
                c,
            ),
        a == b ==> t.swapped(a, b) == t,
{
    let s = t.swapped(a, b);
    if a == b {
        assert(s.rows =~= t.rows);
        assert(s.signs =~= t.signs);
    }
}

/// What multiplying generator `m` by generator `i` does to the components.
pub proof fn lemma_multiplied_has(t: Tableau, n: nat, m: int, i: int)
    requires
        t.square(n),
        0 <= m < n,
        0 <= i < n,
    ensures
        t.multiplied(m, i).square(n),
        forall|y: bool, r: int, c: int|
            0 <= r < n && 0 <= c < n ==> #[trigger] t.multiplied(m, i).has(y, r, c) == (if r
                == m {
                t.has(y, m, c) != t.has(y, i, c)
            } else {
                t.has(y, r, c)
            }),
{
}

/// The first generator with the component lies where the search says.
pub proof fn lemma_pivot_from(t: Tableau, n: nat, x_part: bool, j: int, from: int)
    requires
        0 <= from <= n,
    ensures
        from <= t.pivot_from(n, x_part, j, from) <= n,
        t.pivot_from(n, x_part, j, from) < n ==> t.has(
            x_part,
            t.pivot_from(n, x_part, j, from),
            j,
        ),
        forall|r: int|
            from <= r < t.pivot_from(n, x_part, j, from) ==> !#[trigger] t.has(x_part, r, j),
    decreases n - from,
{
    if from < n && !t.has(x_part, from, j) {
        lemma_pivot_from(t, n, x_part, j, from + 1);
    }
}

/// What clearing a column does to the components: the generators from `m` on that
/// have the component on qubit `j`, but for generator `i`, are multiplied by
/// generator `i`, and the others stay as they are.
pub proof fn lemma_cleared_has(t: Tableau, n: nat, x_part: bool, i: int, j: int, m: int)
    requires
        t.square(n),
        0 <= i < n,
        0 <= j < n,
        0 <= m <= n,
    ensures
        t.cleared_from(n, x_part, i, j, m).square(n),
        forall|y: bool, r: int, c: int|
            0 <= r < n && 0 <= c < n ==> #[trigger] t.cleared_from(n, x_part, i, j, m).has(
                y,
                r,
                c,
            ) == (if r >= m && r != i && t.has(x_part, r, j) {
                t.has(y, r, c) != t.has(y, i, c)
            } else {
                t.has(y, r, c)
            }),
        (forall|r: int| m <= r < n && r != i ==> !t.has(x_part, r, j)) ==> t.cleared_from(
            n,
            x_part,
            i,
            j,
            m,
        ) == t,
    decreases n - m,
{
    if m < n {
        if m != i && t.has(x_part, m, j) {
            let t1 = t.multiplied(m, i);
            lemma_multiplied_has(t, n, m, i);
            lemma_cleared_has(t1, n, x_part, i, j, m + 1);
            let done = t1.cleared_from(n, x_part, i, j, m + 1);
            assert forall|y: bool, r: int, c: int| 0 <= r < n && 0 <= c < n implies #[trigger] done.has(
                y,
                r,
                c,
            ) == (if r >= m && r != i && t.has(x_part, r, j) {
                t.has(y, r, c) != t.has(y, i, c)
            } else {
                t.has(y, r, c)
            }) by {
                assert(t1.has(y, r, c) == (if r == m {
                    t.has(y, m, c) != t.has(y, i, c)
                } else {
                    t.has(y, r, c)
                }));
                assert(t1.has(y, i, c) == t.has(y, i, c));
                assert(t1.has(x_part, r, j) == (if r == m {
                    t.has(x_part, m, j) != t.has(x_part, i, j)
                } else {
                    t.has(x_part, r, j)
                }));
            }
        } else {
            lemma_cleared_has(t, n, x_part, i, j, m + 1);
        }
    }
}

/// One more column: where a tableau is reduced up to column `j`, the step of the
/// row reduction on column `j` leaves it reduced up to column `j + 1`, with one
/// more pivot column where a pivot was found.
pub proof fn lemma_reduction_step(
    t: Tableau,
    n: nat,
    x_part: bool,
    start: int,
    cols: Seq<int>,
    j: int,
)
    requires
        t.square(n),
        0 <= j < n,
        reduced_upto(t, n, x_part, start, cols, j),
    ensures
        ({
            let i = start + cols.len();
            let k = t.pivot_from(n, x_part, j, i);
            if k < n {
                let next = t.swapped(i, k).cleared_from(n, x_part, i, j, 0);
                next.square(n) && reduced_upto(next, n, x_part, start, cols.push(j), j + 1)
            } else {
                reduced_upto(t, n, x_part, start, cols, j + 1)
            }
        }),
{
    let i = start + cols.len();
    lemma_pivot_from(t, n, x_part, j, i);
    let k = t.pivot_from(n, x_part, j, i);
    if k < n {
        let t1 = t.swapped(i, k);
        lemma_swapped_has(t, n, i, k);
        let next = t1.cleared_from(n, x_part, i, j, 0);
        lemma_cleared_has(t1, n, x_part, i, j, 0);
        let more = cols.push(j);
        // The generators before `i` and the columns before `j` look as they did.
        assert forall|r: int, c: int| 0 <= r < n && 0 <= c < j implies next.has(x_part, r, c)
            == t1.has(x_part, r, c) by {
            assert(!t1.has(x_part, i, c)) by {
                assert(t1.has(x_part, i, c) == t.has(x_part, k, c));
            }
        }
        assert forall|r: int, c: int| 0 <= r < i && 0 <= c < n implies t1.has(x_part, r, c)
            == t.has(x_part, r, c) by {}
        assert forall|p: int|
            0 <= p < more.len() implies 0 <= #[trigger] more[p] < j + 1 && next.has(
            x_part,
            start + p,
            more[p],
        ) by {
            if p < cols.len() {
                assert(more[p] == cols[p]);
                assert(t.has(x_part, start + p, cols[p]));
                assert(next.has(x_part, start + p, cols[p]) == t1.has(x_part, start + p, cols[p]));
            } else {
                assert(t1.has(x_part, i, j));
                assert(next.has(x_part, i, j) == t1.has(x_part, i, j));
            }
        }
        assert forall|p: int, c: int| 0 <= p < more.len() && 0 <= c < more[p] implies !#[trigger] next.has(
            x_part,
            start + p,
            c,
        ) by {
            if p < cols.len() {
                assert(more[p] == cols[p]);
                assert(!t.has(x_part, start + p, c));
                assert(next.has(x_part, start + p, c) == t1.has(x_part, start + p, c));
            } else {
                assert(next.has(x_part, i, c) == t1.has(x_part, i, c));
                assert(t1.has(x_part, i, c) == t.has(x_part, k, c));
            }
        }
        assert forall|p: int, q: int| 0 <= p < q < more.len() implies more[p] < more[q] by {
            if q < cols.len() {
            } else {
                assert(more[p] == cols[p]);
            }
        }
        assert forall|p: int, m: int|
            0 <= p < more.len() && 0 <= m < n && m != start + p implies !#[trigger] next.has(
            x_part,
            m,
            more[p],
        ) by {
            if p < cols.len() {
                assert(more[p] == cols[p]);
                let m0 = if m == i {
                    k
                } else if m == k {
                    i
                } else {
                    m
                };
                assert(!t.has(x_part, m0, cols[p]));
                assert(t1.has(x_part, m, cols[p]) == t.has(x_part, m0, cols[p]));
                assert(next.has(x_part, m, cols[p]) == t1.has(x_part, m, cols[p]));
            } else {
                assert(t1.has(x_part, i, j));
            }
        }
        assert forall|r: int, c: int| i + 1 <= r < n && 0 <= c < j + 1 implies !#[trigger] next.has(
            x_part,
            r,
            c,
        ) by {
            if c < j {
                let r0 = if r == k {
                    i
                } else {
                    r
                };
                assert(!t.has(x_part, r0, c));
                assert(t1.has(x_part, r, c) == t.has(x_part, r0, c));
                assert(next.has(x_part, r, c) == t1.has(x_part, r, c));
            } else {
                assert(t1.has(x_part, i, j));
            }
        }
    } else {
        assert forall|r: int, c: int| i <= r < n && 0 <= c < j + 1 implies !#[trigger] t.has(
            x_part,
            r,
            c,
        ) by {}
    }
}

/// Row reduction arrives at a reduced tableau: where a tableau is reduced up to
/// column `j`, row reduction over the columns from `j` on gives a tableau that is
/// reduced over all columns. The result names the pivot columns.
pub proof fn lemma_reduction(
    t: Tableau,
    n: nat,
    x_part: bool,
    start: int,
    cols: Seq<int>,
    j: int,
) -> (all: Seq<int>)
    requires
        t.square(n),
        0 <= j <= n,
        reduced_upto(t, n, x_part, start, cols, j),
    ensures
        t.reduced_from(n, x_part, j, start + cols.len()).0.square(n),
        t.reduced_from(n, x_part, j, start + cols.len()).1 == start + all.len(),
        reduced_upto(
            t.reduced_from(n, x_part, j, start + cols.len()).0,
            n,
            x_part,
            start,
            all,
            n as int,
        ),
    decreases n - j,
{
    if j >= n {
        cols
    } else {
        let i = start + cols.len();
        lemma_reduction_step(t, n, x_part, start, cols, j);
        let k = t.pivot_from(n, x_part, j, i);
        if k < n {
            let next = t.swapped(i, k).cleared_from(n, x_part, i, j, 0);
            lemma_reduction(next, n, x_part, start, cols.push(j), j + 1)
        } else {
            lemma_reduction(t, n, x_part, start, cols, j + 1)
        }
    }
}

/// Row reduction on the Z components leaves the X components alone, where the
/// generators from `i` on have none.
pub proof fn lemma_reduction_keeps_x(t: Tableau, n: nat, j: int, i: int)
    requires
        t.square(n),
        0 <= j <= n,
        0 <= i <= n,
        forall|r: int, c: int| i <= r < n && 0 <= c < n ==> !#[trigger] t.has(true, r, c),
    ensures
        forall|r: int, c: int|
            0 <= r < n && 0 <= c < n ==> #[trigger] t.reduced_from(n, false, j, i).0.has(
                true,
                r,
                c,
            ) == t.has(true, r, c),
    decreases n - j,
{
    if j < n {
        lemma_pivot_from(t, n, false, j, i);
        let k = t.pivot_from(n, false, j, i);
        if k < n {
            let t1 = t.swapped(i, k);
            lemma_swapped_has(t, n, i, k);
            let next = t1.cleared_from(n, false, i, j, 0);
            lemma_cleared_has(t1, n, false, i, j, 0);
            assert forall|r: int, c: int| 0 <= r < n && 0 <= c < n implies #[trigger] next.has(
                true,
                r,
                c,
            ) == t.has(true, r, c) by {
                let r0 = if r == i {
                    k
                } else if r == k {
                    i
                } else {
                    r
                };
                assert(t1.has(true, r, c) == t.has(true, r0, c));
                assert(t1.has(true, i, c) == t.has(true, k, c));
                assert(!t.has(true, k, c));
                assert(!t.has(true, i, c));
            }
            assert forall|r: int, c: int| i + 1 <= r < n && 0 <= c < n implies !#[trigger] next.has(
                true,
                r,
                c,
            ) by {
                assert(next.has(true, r, c) == t.has(true, r, c));
            }
            lemma_reduction_keeps_x(next, n, j + 1, i + 1);
            let last = next.reduced_from(n, false, j + 1, i + 1).0;
            assert(last == t.reduced_from(n, false, j, i).0);
            assert forall|r: int, c: int| 0 <= r < n && 0 <= c < n implies #[trigger] last.has(
                true,
                r,
                c,
            ) == t.has(true, r, c) by {
                assert(next.has(true, r, c) == t.has(true, r, c));
            }
        } else {
            lemma_reduction_keeps_x(t, n, j + 1, i);
            assert(t.reduced_from(n, false, j, i) == t.reduced_from(n, false, j + 1, i));
        }
    } else {
        assert(t.reduced_from(n, false, j, i).0 == t);
    }
}

/// The pivot columns of the canonical form of `t`: those of the X components and
/// those of the Z components.
pub proof fn lemma_normalized_pivots(t: Tableau, n: nat) -> (cols: (Seq<int>, Seq<int>))
    requires
        t.square(n),
    ensures
        t.normalized().square(n),
        reduced_upto(t.normalized(), n, true, 0, cols.0, n as int),
        reduced_upto(t.normalized(), n, false, cols.0.len() as int, cols.1, n as int),
{
    let none = Seq::<int>::empty();
    let xcols = lemma_reduction(t, n, true, 0, none, 0);
    let first = t.reduced_from(n, true, 0, 0);
    let zcols = lemma_reduction(first.0, n, false, first.1, none, 0);
    lemma_reduction_keeps_x(first.0, n, 0, first.1);
    let last = first.0.reduced_from(n, false, 0, first.1).0;
    assert(last == t.normalized());
    assert(reduced_upto(last, n, true, 0, xcols, n as int)) by {
        assert forall|r: int, c: int| 0 <= r < n && 0 <= c < n implies last.has(true, r, c)
            == first.0.has(true, r, c) by {}
        assert forall|p: int|
            0 <= p < xcols.len() implies 0 <= #[trigger] xcols[p] < n && last.has(
            true,
            0 + p,
            xcols[p],
        ) by {
            assert(first.0.has(true, 0 + p, xcols[p]));
        }
        assert forall|p: int, c: int| 0 <= p < xcols.len() && 0 <= c < xcols[p] implies !#[trigger] last.has(
            true,
            0 + p,
            c,
        ) by {
            assert(!first.0.has(true, 0 + p, c));
        }
        assert forall|p: int, m: int|
            0 <= p < xcols.len() && 0 <= m < n && m != 0 + p implies !#[trigger] last.has(
            true,
            m,
            xcols[p],
        ) by {
            assert(!first.0.has(true, m, xcols[p]));
        }
        assert forall|r: int, c: int| 0 + xcols.len() <= r < n && 0 <= c < n implies !#[trigger] last.has(
            true,
            r,
            c,
        ) by {
            assert(!first.0.has(true, r, c));
        }
    }
    (xcols, zcols)
}

/// The canonical form is canonical.
pub proof fn lemma_normalized_canonical(t: Tableau, n: nat)
    requires
        t.square(n),
    ensures
        t.normalized().square(n),
        canonical(t.normalized(), n),
{
    let cols = lemma_normalized_pivots(t, n);
}

/// Row reduction leaves a reduced tableau as it is: with the first `q` pivot
/// columns before column `j` and the others from `j` on, row reduction over the
/// columns from `j` on changes nothing and ends with all the pivot generators.
pub proof fn lemma_reduced_stays(
    t: Tableau,
    n: nat,
    x_part: bool,
    start: int,
    cols: Seq<int>,
    j: int,
    q: int,
)
    requires
        t.square(n),
        reduced_upto(t, n, x_part, start, cols, n as int),
        0 <= j <= n,
        0 <= q <= cols.len(),
        forall|p: int| 0 <= p < q ==> cols[p] < j,
        forall|p: int| q <= p < cols.len() ==> cols[p] >= j,
    ensures
        t.reduced_from(n, x_part, j, start + q) == (t, start + cols.len()),
    decreases n - j,
{
    let i = start + q;
    if j >= n {
        if q < cols.len() {
            assert(cols[q] >= j);
        }
    } else {
        lemma_pivot_from(t, n, x_part, j, i);
        let k = t.pivot_from(n, x_part, j, i);
        if q < cols.len() && cols[q] == j {
            assert(t.has(x_part, start + q, cols[q]));
            assert(k == i);
            lemma_swapped_has(t, n, i, i);
            assert forall|r: int| 0 <= r < n && r != i implies !t.has(x_part, r, j) by {
                assert(!t.has(x_part, r, cols[q]));
            }
            lemma_cleared_has(t, n, x_part, i, j, 0);
            assert(t.swapped(i, k).cleared_from(n, x_part, i, j, 0) == t);
            assert forall|p: int| q + 1 <= p < cols.len() implies cols[p] >= j + 1 by {
                assert(cols[q] < cols[p]);
            }
            lemma_reduced_stays(t, n, x_part, start, cols, j + 1, q + 1);
        } else {
            assert forall|p: int| q <= p < cols.len() implies cols[p] >= j + 1 by {
                if p == q {
                } else {
                    assert(cols[q] < cols[p]);
                }
            }
            if k < n {
                if k >= start + cols.len() {
                    assert(!t.has(x_part, k, j));
                } else {
                    let p = k - start;
                    assert(cols[p] >= j + 1);
                    assert(!t.has(x_part, start + p, j));
                }
                assert(false);
            }
            lemma_reduced_stays(t, n, x_part, start, cols, j + 1, q);
        }
    }
}

/// Bringing a tableau into canonical form twice gives what doing it once gives.
pub proof fn lemma_normalized_idempotent(t: Tableau, n: nat)
    requires
        t.square(n),
    ensures
        t.normalized().normalized() == t.normalized(),
{
    let cols = lemma_normalized_pivots(t, n);
    let done = t.normalized();
    lemma_reduced_stays(done, n, true, 0, cols.0, 0, 0);
    lemma_reduced_stays(done, n, false, cols.0.len() as int, cols.1, 0, 0);
}

} // verus!

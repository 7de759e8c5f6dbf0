use crate::matrix::{data_ok, Matrix};
use crate::rat::{q_lt, q_one, q_zero, rat_lt, Q, Rat};
use crate::Error;
use vstd::prelude::*;

verus! {

/// The truncated integer value of a nonnegative rational.
pub open spec fn q_trunc(q: Q) -> int {
    q.n / q.d
}

/// Whether a label value selects a valid row: nonnegative and, once
/// truncated to an integer, below `classes`.
pub open spec fn label_ok(q: Q, classes: int) -> bool {
    q.n >= 0 && q_trunc(q) < classes
}

/// The class-indicator matrix: a 1 in row `trunc(labels[0][j])` of column `j`.
pub open spec fn one_hot_spec(labels: Seq<Seq<Q>>, classes: int, n: int) -> Seq<Seq<Q>> {
    Seq::new(
        classes as nat,
        |i: int|
            Seq::new(
                n as nat,
                |j: int|
                    if q_trunc(labels[0][j]) == i {
                        q_one()
                    } else {
                        q_zero()
                    },
            ),
    )
}

/// One-hot encoding of an integer-valued label row: a fresh `classes` by `n`
/// matrix with exactly one 1 per column; out-of-range labels are rejected.
pub fn one_hot(labels: &Matrix, classes: usize) -> (r: Result<Matrix, Error>)
    requires
        labels.wf(),
        labels.rows == 1,
    ensures
        r == Err::<Matrix, Error>(Error::LabelOutOfRange) <==> exists|j: int|
            0 <= j < labels.cols && !label_ok(labels@[0][j], classes as int),
        r matches Ok(m) ==> m.wf() && m.rows == classes && m.cols == labels.cols && m@
            == one_hot_spec(labels@, classes as int, labels.cols as int),
        r is Ok || r == Err::<Matrix, Error>(Error::LabelOutOfRange),
{
    let mut idx: Vec<usize> = Vec::new();
    let mut j: usize = 0;
    while j < labels.cols
        invariant
            labels.wf(),
            labels.rows == 1,
            j <= labels.cols,
            idx@.len() == j,
            forall|jj: int| 0 <= jj < j ==> #[trigger] label_ok(labels@[0][jj], classes as int),
            forall|jj: int|
                0 <= jj < j ==> (#[trigger] idx@[jj]) as int == q_trunc(labels@[0][jj])
                    && idx@[jj] < classes,
        decreases labels.cols - j,
    {
        let l: Rat = labels.at(0, j);
        if l.num < 0 {
            return Err(Error::LabelOutOfRange);
        }
        let t: u128 = (l.num as u128) / (l.den as u128);
        proof {
            assert(l@ == labels@[0][j as int]);
            assert(l@.n >= 0 && l@.d > 0);
            assert(t as int == l@.n / l@.d);
        }
        if t >= classes as u128 {
            return Err(Error::LabelOutOfRange);
        }
        idx.push(t as usize);
        j = j + 1;
    }
    let mut data: Vec<Vec<Rat>> = Vec::new();
    let mut i: usize = 0;
    while i < classes
        invariant
            labels.wf(),
            labels.rows == 1,
            i <= classes,
            idx@.len() == labels.cols,
            forall|jj: int|
                0 <= jj < labels.cols ==> (#[trigger] idx@[jj]) as int == q_trunc(labels@[0][jj]),
            data@.len() == i,
            data_ok(data@, labels.cols as int),
            forall|ii: int, jj: int|
                0 <= ii < i && 0 <= jj < labels.cols ==> data@[ii]@[jj]@ == (if q_trunc(
                    labels@[0][jj],
                ) == ii {
                    q_one()
                } else {
                    q_zero()
                }),
        decreases classes - i,
    {
        let mut row: Vec<Rat> = Vec::new();
        let mut j2: usize = 0;
        while j2 < labels.cols
            invariant
                labels.wf(),
                labels.rows == 1,
                i < classes,
                j2 <= labels.cols,
                idx@.len() == labels.cols,
                forall|jj: int|
                    0 <= jj < labels.cols ==> (#[trigger] idx@[jj]) as int == q_trunc(
                        labels@[0][jj],
                    ),
                row@.len() == j2,
                forall|jj: int| 0 <= jj < j2 ==> (#[trigger] row@[jj]).wf(),
                forall|jj: int|
                    0 <= jj < j2 ==> row@[jj]@ == (if q_trunc(labels@[0][jj]) == i {
                        q_one()
                    } else {
                        q_zero()
                    }),
            decreases labels.cols - j2,
        {
            if idx[j2] == i {
                row.push(Rat::one());
            } else {
                row.push(Rat::zero());
            }
            j2 = j2 + 1;
        }
        data.push(row);
        i = i + 1;
    }
    let m = Matrix { rows: classes, cols: labels.cols, data };
    proof {
        assert(m@ =~~= one_hot_spec(labels@, classes as int, labels.cols as int));
    }
    Ok(m)
}

/// The index of the running maximum after scanning the first `n` entries,
/// updated only on a strictly larger value (so ties keep the earliest index).
pub open spec fn argmax_spec(v: Seq<Q>, n: int) -> int
    decreases n,
{
    if n <= 1 {
        0
    } else {
        let p = argmax_spec(v, n - 1);
        if q_lt(v[p], v[n - 1]) {
            n - 1
        } else {
            p
        }
    }
}

/// What it means to be the first index attaining the maximum.
pub open spec fn is_first_max(v: Seq<Q>, idx: int) -> bool {
    &&& 0 <= idx < v.len()
    &&& forall|k: int| 0 <= k < v.len() ==> !q_lt(v[idx], #[trigger] v[k])
    &&& forall|k: int| 0 <= k < idx ==> q_lt(#[trigger] v[k], v[idx])
}

/// The scanning argmax is the first index attaining the maximum.
pub proof fn lemma_argmax_first(v: Seq<Q>, n: int)
    requires
        1 <= n <= v.len(),
        forall|k: int| 0 <= k < v.len() ==> (#[trigger] v[k]).d > 0,
    ensures
        0 <= argmax_spec(v, n) < n,
        forall|k: int| 0 <= k < n ==> !q_lt(v[argmax_spec(v, n)], #[trigger] v[k]),
        forall|k: int| 0 <= k < argmax_spec(v, n) ==> q_lt(#[trigger] v[k], v[argmax_spec(v, n)]),
    decreases n,
{
    if n > 1 {
        lemma_argmax_first(v, n - 1);
        let p = argmax_spec(v, n - 1);
        let a = argmax_spec(v, n);
        if q_lt(v[p], v[n - 1]) {
            assert forall|k: int| 0 <= k < n implies !q_lt(v[a], #[trigger] v[k]) by {
                if k < n - 1 {
                    lemma_q_order_trans(v[k], v[p], v[n - 1]);
                }
            }
            assert forall|k: int| 0 <= k < a implies q_lt(#[trigger] v[k], v[a]) by {
                lemma_q_order_trans(v[k], v[p], v[n - 1]);
            }
        }
    }
}

/// From `x <= y` (as `!q_lt(y, x)` or `q_lt(x, y)`) and `y < z`, conclude `x < z`.
proof fn lemma_q_order_trans(x: Q, y: Q, z: Q)
    requires
        x.d > 0,
        y.d > 0,
        z.d > 0,
    ensures
        !q_lt(y, x) && q_lt(y, z) ==> q_lt(x, z),
        q_lt(x, y) && !q_lt(z, y) ==> q_lt(x, z),
{
    assert((y.n * x.d >= x.n * y.d && y.n * z.d < z.n * y.d ==> x.n * z.d < z.n * x.d) && (x.n * y.d
        < y.n * x.d && z.n * y.d >= y.n * z.d ==> x.n * z.d < z.n * x.d)) by (nonlinear_arith)
        requires
            x.d > 0,
            y.d > 0,
            z.d > 0,
    ;
}

/// The first index attaining the maximum, and the maximum value, of a
/// nonempty vector; ties resolve to the earliest index.
pub fn max(arr: &Vec<Rat>) -> (r: (usize, Rat))
    requires
        arr@.len() > 0,
        forall|k: int| 0 <= k < arr@.len() ==> (#[trigger] arr@[k]).wf(),
    ensures
        r.0 < arr@.len(),
        r.1 == arr@[r.0 as int],
        r.0 as int == argmax_spec(arr@.map_values(|x: Rat| x@), arr@.len() as int),
        is_first_max(arr@.map_values(|x: Rat| x@), r.0 as int),
{
    let ghost vv = arr@.map_values(|x: Rat| x@);
    let mut index: usize = 0;
    let mut best: Rat = arr[0];
    let mut i: usize = 1;
    while i < arr.len()
        invariant
            arr@.len() > 0,
            forall|k: int| 0 <= k < arr@.len() ==> (#[trigger] arr@[k]).wf(),
            vv == arr@.map_values(|x: Rat| x@),
            1 <= i <= arr@.len(),
            index < i,
            best == arr@[index as int],
            index as int == argmax_spec(vv, i as int),
        decreases arr@.len() - i,
    {
        if rat_lt(&best, &arr[i]) {
            index = i;
            best = arr[i];
        }
        i = i + 1;
    }
    proof {
        lemma_argmax_first(vv, vv.len() as int);
    }
    (index, best)
}

} // verus!

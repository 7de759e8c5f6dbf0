use crate::matrix::{data_ok, Matrix};
use crate::rat::{q_lt, q_one, q_zero, rat_is_pos, Q, Rat};
use vstd::prelude::*;

verus! {

/// The elementwise rectified linear unit at the specification level.
pub open spec fn relu_spec(v: Seq<Seq<Q>>, cols: int) -> Seq<Seq<Q>> {
    Seq::new(
        v.len(),
        |i: int|
            Seq::new(
                cols as nat,
                |j: int|
                    if q_lt(q_zero(), v[i][j]) {
                        v[i][j]
                    } else {
                        q_zero()
                    },
            ),
    )
}

/// The elementwise ReLU subgradient (1 where positive, 0 elsewhere, 0 at 0).
pub open spec fn relu_deriv_spec(v: Seq<Seq<Q>>, cols: int) -> Seq<Seq<Q>> {
    Seq::new(
        v.len(),
        |i: int|
            Seq::new(
                cols as nat,
                |j: int|
                    if q_lt(q_zero(), v[i][j]) {
                        q_one()
                    } else {
                        q_zero()
                    },
            ),
    )
}

/// ReLU: each entry kept where strictly positive, zero elsewhere.
pub fn relu(arr: &Matrix) -> (r: Matrix)
    requires
        arr.wf(),
    ensures
        r.wf(),
        r.rows == arr.rows,
        r.cols == arr.cols,
        r@ == relu_spec(arr@, arr.cols as int),
{
    let mut data: Vec<Vec<Rat>> = Vec::new();
    let mut i: usize = 0;
    while i < arr.rows
        invariant
            arr.wf(),
            i <= arr.rows,
            data@.len() == i,
            data_ok(data@, arr.cols as int),
            forall|ii: int, jj: int|
                0 <= ii < i && 0 <= jj < arr.cols ==> data@[ii]@[jj]@ == (if q_lt(
                    q_zero(),
                    arr@[ii][jj],
                ) {
                    arr@[ii][jj]
                } else {
                    q_zero()
                }),
        decreases arr.rows - i,
    {
        let mut row: Vec<Rat> = Vec::new();
        let mut j: usize = 0;
        while j < arr.cols
            invariant
                arr.wf(),
                i < arr.rows,
                j <= arr.cols,
                row@.len() == j,
                forall|jj: int| 0 <= jj < j ==> (#[trigger] row@[jj]).wf(),
                forall|jj: int|
                    0 <= jj < j ==> row@[jj]@ == (if q_lt(q_zero(), arr@[i as int][jj]) {
                        arr@[i as int][jj]
                    } else {
                        q_zero()
                    }),
            decreases arr.cols - j,
        {
            let v: Rat = arr.at(i, j);
            if rat_is_pos(&v) {
                row.push(v);
            } else {
                row.push(Rat::zero());
            }
            j = j + 1;
        }
        data.push(row);
        i = i + 1;
    }
    let m = Matrix { rows: arr.rows, cols: arr.cols, data };
    proof {
        assert(m@ =~~= relu_spec(arr@, arr.cols as int));
    }
    m
}

/// The ReLU derivative: 1 where the entry is strictly positive, 0 elsewhere.
pub fn derivative_relu(arr: &Matrix) -> (r: Matrix)
    requires
        arr.wf(),
    ensures
        r.wf(),
        r.rows == arr.rows,
        r.cols == arr.cols,
        r@ == relu_deriv_spec(arr@, arr.cols as int),
{
    let mut data: Vec<Vec<Rat>> = Vec::new();
    let mut i: usize = 0;
    while i < arr.rows
        invariant
            arr.wf(),
            i <= arr.rows,
            data@.len() == i,
            data_ok(data@, arr.cols as int),
            forall|ii: int, jj: int|
                0 <= ii < i && 0 <= jj < arr.cols ==> data@[ii]@[jj]@ == (if q_lt(
                    q_zero(),
                    arr@[ii][jj],
                ) {
                    q_one()
                } else {
                    q_zero()
                }),
        decreases arr.rows - i,
    {
        let mut row: Vec<Rat> = Vec::new();
        let mut j: usize = 0;
        while j < arr.cols
            invariant
                arr.wf(),
                i < arr.rows,
                j <= arr.cols,
                row@.len() == j,
                forall|jj: int| 0 <= jj < j ==> (#[trigger] row@[jj]).wf(),
                forall|jj: int|
                    0 <= jj < j ==> row@[jj]@ == (if q_lt(q_zero(), arr@[i as int][jj]) {
                        q_one()
                    } else {
                        q_zero()
                    }),
            decreases arr.cols - j,
        {
            let v: Rat = arr.at(i, j);
            if rat_is_pos(&v) {
                row.push(Rat::one());
            } else {
                row.push(Rat::zero());
            }
            j = j + 1;
        }
        data.push(row);
        i = i + 1;
    }
    let m = Matrix { rows: arr.rows, cols: arr.cols, data };
    proof {
        assert(m@ =~~= relu_deriv_spec(arr@, arr.cols as int));
    }
    m
}

/// An activation transform a layer can be built with. Implementations promise
/// an exact specification-level account of what they compute; transforms that
/// exist only in floating point (sigmoid, softmax) have no exact instance.
pub trait Activation: Sized {
    /// The transform at the specification level.
    spec fn spec_apply(&self, m: Seq<Seq<Q>>, cols: int) -> Seq<Seq<Q>>;

    /// Applies the transform to a matrix, preserving its shape.
    fn apply(&self, m: &Matrix) -> (r: Matrix)
        requires
            m.wf(),
        ensures
            r.wf(),
            r.rows == m.rows,
            r.cols == m.cols,
            r@ == self.spec_apply(m@, m.cols as int),
    ;
}

/// The rectified linear unit as a layer activation.
#[derive(Clone, Copy, Debug, PartialEq, Eq, Structural)]
pub struct Relu;

impl Activation for Relu {
    open spec fn spec_apply(&self, m: Seq<Seq<Q>>, cols: int) -> Seq<Seq<Q>> {
        relu_spec(m, cols)
    }

    fn apply(&self, m: &Matrix) -> (r: Matrix) {
        relu(m)
    }
}

} // verus!

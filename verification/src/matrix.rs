use crate::rat::{q_try_add, q_try_mul, q_try_sub, q_zero, rat_add, rat_mul, rat_sub, Q, Rat};
use crate::Error;
use vstd::prelude::*;

verus! {

/// A dense matrix of exact rationals, stored as `rows` rows of `cols` entries.
#[derive(Clone, Debug, PartialEq)]
pub struct Matrix {
    pub rows: usize,
    pub cols: usize,
    pub data: Vec<Vec<Rat>>,
}

pub open spec fn row_ok(r: Vec<Rat>, cols: int) -> bool {
    r@.len() == cols && forall|j: int| 0 <= j < r@.len() ==> (#[trigger] r@[j]).wf()
}

pub open spec fn data_ok(d: Seq<Vec<Rat>>, cols: int) -> bool {
    forall|i: int| 0 <= i < d.len() ==> row_ok(#[trigger] d[i], cols)
}

impl View for Matrix {
    type V = Seq<Seq<Q>>;

    open spec fn view(&self) -> Seq<Seq<Q>> {
        Seq::new(
            self.rows as nat,
            |i: int| Seq::new(self.cols as nat, |j: int| self.data@[i]@[j]@),
        )
    }
}

/// The column count of a matrix view (0 for an empty one).
pub open spec fn vcols(v: Seq<Seq<Q>>) -> int {
    if v.len() == 0 {
        0
    } else {
        v[0].len() as int
    }
}

/// Column `j` of a matrix view, as a sequence.
pub open spec fn vcol(v: Seq<Seq<Q>>, j: int) -> Seq<Q> {
    Seq::new(v.len(), |i: int| v[i][j])
}

/// Exact dot product of the first `n` entries, folded left from zero;
/// `None` as soon as a machine intermediate does not fit.
pub open spec fn try_dot(a: Seq<Q>, b: Seq<Q>, n: int) -> Option<Q>
    decreases n,
{
    if n <= 0 {
        Some(q_zero())
    } else {
        match try_dot(a, b, n - 1) {
            None => None,
            Some(acc) => match q_try_mul(a[n - 1], b[n - 1]) {
                None => None,
                Some(p) => q_try_add(acc, p),
            },
        }
    }
}

/// Exact matrix product of `a` (rows of views) with `b`, `b` having `bcols`
/// columns; `None` as soon as one entry's fold does not fit.
pub open spec fn try_matmul(a: Seq<Seq<Q>>, b: Seq<Seq<Q>>, bcols: int) -> Option<Seq<Seq<Q>>> {
    if exists|i: int, j: int|
        0 <= i < a.len() && 0 <= j < bcols && try_dot(a[i], vcol(b, j), b.len() as int) is None {
        None
    } else {
        Some(
            Seq::new(
                a.len(),
                |i: int|
                    Seq::new(
                        bcols as nat,
                        |j: int| try_dot(a[i], vcol(b, j), b.len() as int).unwrap(),
                    ),
            ),
        )
    }
}

pub open spec fn try_ew_sub(a: Seq<Seq<Q>>, b: Seq<Seq<Q>>) -> Option<Seq<Seq<Q>>> {
    if exists|i: int, j: int|
        0 <= i < a.len() && 0 <= j < vcols(a) && q_try_sub(a[i][j], b[i][j]) is None {
        None
    } else {
        Some(
            Seq::new(
                a.len(),
                |i: int| Seq::new(vcols(a) as nat, |j: int| q_try_sub(a[i][j], b[i][j]).unwrap()),
            ),
        )
    }
}

pub open spec fn try_ew_mul(a: Seq<Seq<Q>>, b: Seq<Seq<Q>>) -> Option<Seq<Seq<Q>>> {
    if exists|i: int, j: int|
        0 <= i < a.len() && 0 <= j < vcols(a) && q_try_mul(a[i][j], b[i][j]) is None {
        None
    } else {
        Some(
            Seq::new(
                a.len(),
                |i: int| Seq::new(vcols(a) as nat, |j: int| q_try_mul(a[i][j], b[i][j]).unwrap()),
            ),
        )
    }
}

/// Every entry multiplied by the scalar `s`.
pub open spec fn try_scale(a: Seq<Seq<Q>>, s: Q) -> Option<Seq<Seq<Q>>> {
    if exists|i: int, j: int| 0 <= i < a.len() && 0 <= j < vcols(a) && q_try_mul(a[i][j], s)
        is None {
        None
    } else {
        Some(
            Seq::new(
                a.len(),
                |i: int| Seq::new(vcols(a) as nat, |j: int| q_try_mul(a[i][j], s).unwrap()),
            ),
        )
    }
}

/// The scalar `s` subtracted from every entry.
pub open spec fn try_sub_scalar(a: Seq<Seq<Q>>, s: Q) -> Option<Seq<Seq<Q>>> {
    if exists|i: int, j: int| 0 <= i < a.len() && 0 <= j < vcols(a) && q_try_sub(a[i][j], s)
        is None {
        None
    } else {
        Some(
            Seq::new(
                a.len(),
                |i: int| Seq::new(vcols(a) as nat, |j: int| q_try_sub(a[i][j], s).unwrap()),
            ),
        )
    }
}

/// Column vector `b` (one column per row of `a`) added to every column of `a`.
pub open spec fn try_add_bias(a: Seq<Seq<Q>>, b: Seq<Seq<Q>>) -> Option<Seq<Seq<Q>>> {
    if exists|i: int, j: int|
        0 <= i < a.len() && 0 <= j < vcols(a) && q_try_add(a[i][j], b[i][0]) is None {
        None
    } else {
        Some(
            Seq::new(
                a.len(),
                |i: int| Seq::new(vcols(a) as nat, |j: int| q_try_add(a[i][j], b[i][0]).unwrap()),
            ),
        )
    }
}

pub open spec fn try_sum_row(acc: Option<Q>, row: Seq<Q>, n: int) -> Option<Q>
    decreases n,
{
    if n <= 0 {
        acc
    } else {
        match try_sum_row(acc, row, n - 1) {
            None => None,
            Some(s) => q_try_add(s, row[n - 1]),
        }
    }
}

pub open spec fn try_sum_rows(v: Seq<Seq<Q>>, cols: int, n: int) -> Option<Q>
    decreases n,
{
    if n <= 0 {
        Some(q_zero())
    } else {
        try_sum_row(try_sum_rows(v, cols, n - 1), v[n - 1], cols)
    }
}

/// The grand sum of all entries, row by row, left to right.
pub open spec fn try_mat_sum(v: Seq<Seq<Q>>) -> Option<Q> {
    try_sum_rows(v, vcols(v), v.len() as int)
}

/// The transpose of a view with `cols` columns.
pub open spec fn vtranspose(v: Seq<Seq<Q>>, cols: int) -> Seq<Seq<Q>> {
    Seq::new(cols as nat, |j: int| Seq::new(v.len(), |i: int| v[i][j]))
}

impl Matrix {
    pub open spec fn wf(&self) -> bool {
        self.data@.len() == self.rows && data_ok(self.data@, self.cols as int)
    }

    /// A fresh matrix with every entry zero.
    pub fn zeros(rows: usize, cols: usize) -> (r: Matrix)
        ensures
            r.wf(),
            r.rows == rows,
            r.cols == cols,
            forall|i: int, j: int| 0 <= i < rows && 0 <= j < cols ==> r@[i][j] == q_zero(),
    {
        let mut data: Vec<Vec<Rat>> = Vec::new();
        let mut i: usize = 0;
        while i < rows
            invariant
                i <= rows,
                data@.len() == i,
                data_ok(data@, cols as int),
                forall|ii: int, jj: int|
                    0 <= ii < i && 0 <= jj < cols ==> data@[ii]@[jj]@ == q_zero(),
            decreases rows - i,
        {
            let mut row: Vec<Rat> = Vec::new();
            let mut j: usize = 0;
            while j < cols
                invariant
                    j <= cols,
                    row@.len() == j,
                    forall|jj: int| 0 <= jj < j ==> (#[trigger] row@[jj]).wf(),
                    forall|jj: int| 0 <= jj < j ==> row@[jj]@ == q_zero(),
                decreases cols - j,
            {
                row.push(Rat::zero());
                j = j + 1;
            }
            data.push(row);
            i = i + 1;
        }
        Matrix { rows, cols, data }
    }

    /// A matrix from explicit rows; `None` when the rows are ragged.
    pub fn from_rows(data: Vec<Vec<Rat>>) -> (r: Option<Matrix>)
        requires
            forall|i: int, j: int|
                0 <= i < data@.len() && 0 <= j < data@[i]@.len() ==> (#[trigger] data@[i]@[j]).wf(),
        ensures
            r matches Some(m) ==> m.wf() && m.rows == data@.len() && m@ == Seq::new(
                data@.len(),
                |i: int| Seq::new(m.cols as nat, |j: int| data@[i]@[j]@),
            ),
            r is None <==> exists|i: int|
                0 <= i < data@.len() && (#[trigger] data@[i])@.len() != data@[0]@.len(),
    {
        let rows: usize = data.len();
        let cols: usize = if rows == 0 {
            0
        } else {
            data[0].len()
        };
        let mut i: usize = 0;
        while i < rows
            invariant
                i <= rows,
                rows == data@.len(),
                rows > 0 ==> cols == data@[0]@.len(),
                rows == 0 ==> cols == 0,
                forall|ii: int| 0 <= ii < i ==> (#[trigger] data@[ii])@.len() == cols,
            decreases rows - i,
        {
            if data[i].len() != cols {
                return None;
            }
            i = i + 1;
        }
        let m = Matrix { rows, cols, data };
        proof {
            assert(m@ =~~= Seq::new(
                m.data@.len(),
                |i: int| Seq::new(m.cols as nat, |j: int| m.data@[i]@[j]@),
            ));
        }
        Some(m)
    }

    /// The entry at row `i`, column `j`.
    pub fn at(&self, i: usize, j: usize) -> (r: Rat)
        requires
            self.wf(),
            i < self.rows,
            j < self.cols,
        ensures
            r@ == self@[i as int][j as int],
            r.wf(),
    {
        self.data[i][j]
    }

    /// Column `j`, as a plain vector.
    pub fn col(&self, j: usize) -> (r: Vec<Rat>)
        requires
            self.wf(),
            j < self.cols,
        ensures
            r@.len() == self.rows,
            forall|i: int| 0 <= i < self.rows ==> (#[trigger] r@[i])@ == self@[i][j as int],
            forall|i: int| 0 <= i < self.rows ==> (#[trigger] r@[i]).wf(),
    {
        let mut out: Vec<Rat> = Vec::new();
        let mut i: usize = 0;
        while i < self.rows
            invariant
                self.wf(),
                j < self.cols,
                i <= self.rows,
                out@.len() == i,
                forall|ii: int| 0 <= ii < i ==> (#[trigger] out@[ii])@ == self@[ii][j as int],
                forall|ii: int| 0 <= ii < i ==> (#[trigger] out@[ii]).wf(),
            decreases self.rows - i,
        {
            out.push(self.data[i][j]);
            i = i + 1;
        }
        out
    }

    /// A fresh matrix with the same entries.
    pub fn duplicate(&self) -> (r: Matrix)
        requires
            self.wf(),
        ensures
            r.wf(),
            r.rows == self.rows,
            r.cols == self.cols,
            r@ == self@,
    {
        let mut data: Vec<Vec<Rat>> = Vec::new();
        let mut i: usize = 0;
        while i < self.rows
            invariant
                self.wf(),
                i <= self.rows,
                data@.len() == i,
                data_ok(data@, self.cols as int),
                forall|ii: int, jj: int|
                    0 <= ii < i && 0 <= jj < self.cols ==> data@[ii]@[jj]@ == self@[ii][jj],
            decreases self.rows - i,
        {
            let mut row: Vec<Rat> = Vec::new();
            let mut j: usize = 0;
            while j < self.cols
                invariant
                    self.wf(),
                    i < self.rows,
                    j <= self.cols,
                    row@.len() == j,
                    forall|jj: int| 0 <= jj < j ==> (#[trigger] row@[jj]).wf(),
                    forall|jj: int| 0 <= jj < j ==> row@[jj]@ == self@[i as int][jj],
                decreases self.cols - j,
            {
                row.push(self.data[i][j]);
                j = j + 1;
            }
            data.push(row);
            i = i + 1;
        }
        let r = Matrix { rows: self.rows, cols: self.cols, data };
        proof {
            assert(r@ =~~= self@);
        }
        r
    }

    /// The transpose; total and exact.
    pub fn transpose(&self) -> (r: Matrix)
        requires
            self.wf(),
        ensures
            r.wf(),
            r.rows == self.cols,
            r.cols == self.rows,
            r@ == vtranspose(self@, self.cols as int),
            forall|i: int, j: int|
                0 <= i < self.cols && 0 <= j < self.rows ==> r@[i][j] == self@[j][i],
    {
        let mut data: Vec<Vec<Rat>> = Vec::new();
        let mut i: usize = 0;
        while i < self.cols
            invariant
                self.wf(),
                i <= self.cols,
                data@.len() == i,
                data_ok(data@, self.rows as int),
                forall|ii: int, jj: int|
                    0 <= ii < i && 0 <= jj < self.rows ==> data@[ii]@[jj]@ == self@[jj][ii],
            decreases self.cols - i,
        {
            let mut row: Vec<Rat> = Vec::new();
            let mut j: usize = 0;
            while j < self.rows
                invariant
                    self.wf(),
                    i < self.cols,
                    j <= self.rows,
                    row@.len() == j,
                    forall|jj: int| 0 <= jj < j ==> (#[trigger] row@[jj]).wf(),
                    forall|jj: int| 0 <= jj < j ==> row@[jj]@ == self@[jj][i as int],
                decreases self.rows - j,
            {
                row.push(self.data[j][i]);
                j = j + 1;
            }
            data.push(row);
            i = i + 1;
        }
        let r = Matrix { rows: self.cols, cols: self.rows, data };
        proof {
            assert(r@ =~~= vtranspose(self@, self.cols as int));
        }
        r
    }
}

/// Exact matrix product; `ShapeMismatch` when the inner dimensions differ,
/// `Overflow` exactly when some entry's fold does not fit.
pub fn mat_matmul(a: &Matrix, b: &Matrix) -> (r: Result<Matrix, Error>)
    requires
        a.wf(),
        b.wf(),
    ensures
        r == Err::<Matrix, Error>(Error::ShapeMismatch) <==> a.cols != b.rows,
        a.cols == b.rows ==> (r == Err::<Matrix, Error>(Error::Overflow) <==> try_matmul(
            a@,
            b@,
            b.cols as int,
        ) is None),
        r matches Ok(m) ==> m.wf() && m.rows == a.rows && m.cols == b.cols && Some(m@)
            == try_matmul(a@, b@, b.cols as int),
        r is Err ==> r == Err::<Matrix, Error>(Error::ShapeMismatch) || r == Err::<Matrix, Error>(
            Error::Overflow,
        ),
{
    if a.cols != b.rows {
        return Err(Error::ShapeMismatch);
    }
    let mut data: Vec<Vec<Rat>> = Vec::new();
    let mut i: usize = 0;
    while i < a.rows
        invariant
            a.wf(),
            b.wf(),
            a.cols == b.rows,
            i <= a.rows,
            data@.len() == i,
            data_ok(data@, b.cols as int),
            forall|ii: int, jj: int|
                0 <= ii < i && 0 <= jj < b.cols ==> Some(data@[ii]@[jj]@) == try_dot(
                    a@[ii],
                    vcol(b@, jj),
                    b.rows as int,
                ),
        decreases a.rows - i,
    {
        let mut row: Vec<Rat> = Vec::new();
        let mut j: usize = 0;
        while j < b.cols
            invariant
                a.wf(),
                b.wf(),
                a.cols == b.rows,
                i < a.rows,
                j <= b.cols,
                row@.len() == j,
                forall|jj: int| 0 <= jj < j ==> (#[trigger] row@[jj]).wf(),
                forall|jj: int|
                    0 <= jj < j ==> Some((#[trigger] row@[jj])@) == try_dot(
                        a@[i as int],
                        vcol(b@, jj),
                        b.rows as int,
                    ),
            decreases b.cols - j,
        {
            let mut acc: Rat = Rat::zero();
            let mut k: usize = 0;
            while k < b.rows
                invariant
                    a.wf(),
                    b.wf(),
                    a.cols == b.rows,
                    i < a.rows,
                    j < b.cols,
                    k <= b.rows,
                    acc.wf(),
                    Some(acc@) == try_dot(a@[i as int], vcol(b@, j as int), k as int),
                decreases b.rows - k,
            {
                let p: Rat = match rat_mul(&a.at(i, k), &b.at(k, j)) {
                    Some(v) => v,
                    None => {
                        proof {
                            lemma_dot_none(a@[i as int], vcol(b@, j as int), k + 1, b.rows as int);
                        }
                        return Err(Error::Overflow);
                    },
                };
                acc = match rat_add(&acc, &p) {
                    Some(v) => v,
                    None => {
                        proof {
                            lemma_dot_none(a@[i as int], vcol(b@, j as int), k + 1, b.rows as int);
                        }
                        return Err(Error::Overflow);
                    },
                };
                k = k + 1;
            }
            row.push(acc);
            j = j + 1;
        }
        data.push(row);
        i = i + 1;
    }
    let m = Matrix { rows: a.rows, cols: b.cols, data };
    proof {
        let expected = try_matmul(a@, b@, b.cols as int);
        assert(expected is Some);
        let e = expected.unwrap();
        assert forall|ii: int, jj: int|
            0 <= ii < a.rows && 0 <= jj < b.cols implies m@[ii][jj] == e[ii][jj] by {
            assert(Some(data@[ii]@[jj]@) == try_dot(a@[ii], vcol(b@, jj), b.rows as int));
        }
        assert(m@ =~~= e);
    }
    Ok(m)
}

/// Exact elementwise difference `a - b`.
pub fn mat_sub(a: &Matrix, b: &Matrix) -> (r: Result<Matrix, Error>)
    requires
        a.wf(),
        b.wf(),
    ensures
        r == Err::<Matrix, Error>(Error::ShapeMismatch) <==> !(a.rows == b.rows && a.cols
            == b.cols),
        (a.rows == b.rows && a.cols == b.cols) ==> (r == Err::<Matrix, Error>(Error::Overflow)
            <==> try_ew_sub(a@, b@) is None),
        r matches Ok(m) ==> m.wf() && m.rows == a.rows && m.cols == a.cols && Some(m@)
            == try_ew_sub(a@, b@),
        r is Err ==> r == Err::<Matrix, Error>(Error::ShapeMismatch) || r == Err::<Matrix, Error>(
            Error::Overflow,
        ),
{
    if !(a.rows == b.rows && a.cols == b.cols) {
        return Err(Error::ShapeMismatch);
    }
    let mut data: Vec<Vec<Rat>> = Vec::new();
    let mut i: usize = 0;
    while i < a.rows
        invariant
            a.wf(),
            b.wf(),
            a.rows == b.rows,
            a.cols == b.cols,
            i <= a.rows,
            data@.len() == i,
            data_ok(data@, a.cols as int),
            forall|ii: int, jj: int|
                0 <= ii < i && 0 <= jj < a.cols ==> Some(data@[ii]@[jj]@) == q_try_sub(
                    a@[ii][jj],
                    b@[ii][jj],
                ),
        decreases a.rows - i,
    {
        let mut row: Vec<Rat> = Vec::new();
        let mut j: usize = 0;
        while j < a.cols
            invariant
                a.wf(),
                b.wf(),
                a.rows == b.rows,
                a.cols == b.cols,
                i < a.rows,
                j <= a.cols,
                row@.len() == j,
                forall|jj: int| 0 <= jj < j ==> (#[trigger] row@[jj]).wf(),
                forall|jj: int|
                    0 <= jj < j ==> Some((#[trigger] row@[jj])@) == q_try_sub(
                        a@[i as int][jj],
                        b@[i as int][jj],
                    ),
            decreases a.cols - j,
        {
            let v: Rat = match rat_sub(&a.at(i, j), &b.at(i, j)) {
                Some(v) => v,
                None => { return Err(Error::Overflow); },
            };
            row.push(v);
            j = j + 1;
        }
        data.push(row);
        i = i + 1;
    }
    let m = Matrix { rows: a.rows, cols: a.cols, data };
    proof {
        let expected = try_ew_sub(a@, b@);
        assert(expected is Some);
        assert(m@ =~~= expected.unwrap());
    }
    Ok(m)
}

/// Exact elementwise (Hadamard) product `a * b`.
pub fn mat_hadamard(a: &Matrix, b: &Matrix) -> (r: Result<Matrix, Error>)
    requires
        a.wf(),
        b.wf(),
    ensures
        r == Err::<Matrix, Error>(Error::ShapeMismatch) <==> !(a.rows == b.rows && a.cols
            == b.cols),
        (a.rows == b.rows && a.cols == b.cols) ==> (r == Err::<Matrix, Error>(Error::Overflow)
            <==> try_ew_mul(a@, b@) is None),
        r matches Ok(m) ==> m.wf() && m.rows == a.rows && m.cols == a.cols && Some(m@)
            == try_ew_mul(a@, b@),
        r is Err ==> r == Err::<Matrix, Error>(Error::ShapeMismatch) || r == Err::<Matrix, Error>(
            Error::Overflow,
        ),
{
    if !(a.rows == b.rows && a.cols == b.cols) {
        return Err(Error::ShapeMismatch);
    }
    let mut data: Vec<Vec<Rat>> = Vec::new();
    let mut i: usize = 0;
    while i < a.rows
        invariant
            a.wf(),
            b.wf(),
            a.rows == b.rows,
            a.cols == b.cols,
            i <= a.rows,
            data@.len() == i,
            data_ok(data@, a.cols as int),
            forall|ii: int, jj: int|
                0 <= ii < i && 0 <= jj < a.cols ==> Some(data@[ii]@[jj]@) == q_try_mul(
                    a@[ii][jj],
                    b@[ii][jj],
                ),
        decreases a.rows - i,
    {
        let mut row: Vec<Rat> = Vec::new();
        let mut j: usize = 0;
        while j < a.cols
            invariant
                a.wf(),
                b.wf(),
                a.rows == b.rows,
                a.cols == b.cols,
                i < a.rows,
                j <= a.cols,
                row@.len() == j,
                forall|jj: int| 0 <= jj < j ==> (#[trigger] row@[jj]).wf(),
                forall|jj: int|
                    0 <= jj < j ==> Some((#[trigger] row@[jj])@) == q_try_mul(
                        a@[i as int][jj],
                        b@[i as int][jj],
                    ),
            decreases a.cols - j,
        {
            let v: Rat = match rat_mul(&a.at(i, j), &b.at(i, j)) {
                Some(v) => v,
                None => { return Err(Error::Overflow); },
            };
            row.push(v);
            j = j + 1;
        }
        data.push(row);
        i = i + 1;
    }
    let m = Matrix { rows: a.rows, cols: a.cols, data };
    proof {
        let expected = try_ew_mul(a@, b@);
        assert(expected is Some);
        assert(m@ =~~= expected.unwrap());
    }
    Ok(m)
}

/// Every entry of `a` multiplied by the scalar `s`.
pub fn mat_scale(a: &Matrix, s: &Rat) -> (r: Result<Matrix, Error>)
    requires
        a.wf(),
        s.wf(),
    ensures
        r == Err::<Matrix, Error>(Error::Overflow) <==> try_scale(a@, s@) is None,
        r matches Ok(m) ==> m.wf() && m.rows == a.rows && m.cols == a.cols && Some(m@) == try_scale(
            a@,
            s@,
        ),
        r is Ok || r == Err::<Matrix, Error>(Error::Overflow),
{
    let mut data: Vec<Vec<Rat>> = Vec::new();
    let mut i: usize = 0;
    while i < a.rows
        invariant
            a.wf(),
            s.wf(),
            i <= a.rows,
            data@.len() == i,
            data_ok(data@, a.cols as int),
            forall|ii: int, jj: int|
                0 <= ii < i && 0 <= jj < a.cols ==> Some(data@[ii]@[jj]@) == q_try_mul(
                    a@[ii][jj],
                    s@,
                ),
        decreases a.rows - i,
    {
        let mut row: Vec<Rat> = Vec::new();
        let mut j: usize = 0;
        while j < a.cols
            invariant
                a.wf(),
                s.wf(),
                i < a.rows,
                j <= a.cols,
                row@.len() == j,
                forall|jj: int| 0 <= jj < j ==> (#[trigger] row@[jj]).wf(),
                forall|jj: int|
                    0 <= jj < j ==> Some((#[trigger] row@[jj])@) == q_try_mul(a@[i as int][jj], s@),
            decreases a.cols - j,
        {
            let v: Rat = match rat_mul(&a.at(i, j), s) {
                Some(v) => v,
                None => { return Err(Error::Overflow); },
            };
            row.push(v);
            j = j + 1;
        }
        data.push(row);
        i = i + 1;
    }
    let m = Matrix { rows: a.rows, cols: a.cols, data };
    proof {
        let expected = try_scale(a@, s@);
        assert(expected is Some);
        assert(m@ =~~= expected.unwrap());
    }
    Ok(m)
}

/// The scalar `s` subtracted from every entry of `a`.
pub fn mat_sub_scalar(a: &Matrix, s: &Rat) -> (r: Result<Matrix, Error>)
    requires
        a.wf(),
        s.wf(),
    ensures
        r == Err::<Matrix, Error>(Error::Overflow) <==> try_sub_scalar(a@, s@) is None,
        r matches Ok(m) ==> m.wf() && m.rows == a.rows && m.cols == a.cols && Some(m@)
            == try_sub_scalar(a@, s@),
        r is Ok || r == Err::<Matrix, Error>(Error::Overflow),
{
    let mut data: Vec<Vec<Rat>> = Vec::new();
    let mut i: usize = 0;
    while i < a.rows
        invariant
            a.wf(),
            s.wf(),
            i <= a.rows,
            data@.len() == i,
            data_ok(data@, a.cols as int),
            forall|ii: int, jj: int|
                0 <= ii < i && 0 <= jj < a.cols ==> Some(data@[ii]@[jj]@) == q_try_sub(
                    a@[ii][jj],
                    s@,
                ),
        decreases a.rows - i,
    {
        let mut row: Vec<Rat> = Vec::new();
        let mut j: usize = 0;
        while j < a.cols
            invariant
                a.wf(),
                s.wf(),
                i < a.rows,
                j <= a.cols,
                row@.len() == j,
                forall|jj: int| 0 <= jj < j ==> (#[trigger] row@[jj]).wf(),
                forall|jj: int|
                    0 <= jj < j ==> Some((#[trigger] row@[jj])@) == q_try_sub(a@[i as int][jj], s@),
            decreases a.cols - j,
        {
            let v: Rat = match rat_sub(&a.at(i, j), s) {
                Some(v) => v,
                None => { return Err(Error::Overflow); },
            };
            row.push(v);
            j = j + 1;
        }
        data.push(row);
        i = i + 1;
    }
    let m = Matrix { rows: a.rows, cols: a.cols, data };
    proof {
        let expected = try_sub_scalar(a@, s@);
        assert(expected is Some);
        assert(m@ =~~= expected.unwrap());
    }
    Ok(m)
}

/// The column vector `b` added to every column of `a` (bias broadcast).
pub fn mat_add_bias(a: &Matrix, b: &Matrix) -> (r: Result<Matrix, Error>)
    requires
        a.wf(),
        b.wf(),
    ensures
        r == Err::<Matrix, Error>(Error::ShapeMismatch) <==> !(a.rows == b.rows && b.cols == 1),
        (a.rows == b.rows && b.cols == 1) ==> (r == Err::<Matrix, Error>(Error::Overflow)
            <==> try_add_bias(a@, b@) is None),
        r matches Ok(m) ==> m.wf() && m.rows == a.rows && m.cols == a.cols && Some(m@)
            == try_add_bias(a@, b@),
        r is Err ==> r == Err::<Matrix, Error>(Error::ShapeMismatch) || r == Err::<Matrix, Error>(
            Error::Overflow,
        ),
{
    if !(a.rows == b.rows && b.cols == 1) {
        return Err(Error::ShapeMismatch);
    }
    let mut data: Vec<Vec<Rat>> = Vec::new();
    let mut i: usize = 0;
    while i < a.rows
        invariant
            a.wf(),
            b.wf(),
            a.rows == b.rows,
            b.cols == 1,
            i <= a.rows,
            data@.len() == i,
            data_ok(data@, a.cols as int),
            forall|ii: int, jj: int|
                0 <= ii < i && 0 <= jj < a.cols ==> Some(data@[ii]@[jj]@) == q_try_add(
                    a@[ii][jj],
                    b@[ii][0],
                ),
        decreases a.rows - i,
    {
        let mut row: Vec<Rat> = Vec::new();
        let mut j: usize = 0;
        while j < a.cols
            invariant
                a.wf(),
                b.wf(),
                a.rows == b.rows,
                b.cols == 1,
                i < a.rows,
                j <= a.cols,
                row@.len() == j,
                forall|jj: int| 0 <= jj < j ==> (#[trigger] row@[jj]).wf(),
                forall|jj: int|
                    0 <= jj < j ==> Some((#[trigger] row@[jj])@) == q_try_add(
                        a@[i as int][jj],
                        b@[i as int][0],
                    ),
            decreases a.cols - j,
        {
            let v: Rat = match rat_add(&a.at(i, j), &b.at(i, 0)) {
                Some(v) => v,
                None => { return Err(Error::Overflow); },
            };
            row.push(v);
            j = j + 1;
        }
        data.push(row);
        i = i + 1;
    }
    let m = Matrix { rows: a.rows, cols: a.cols, data };
    proof {
        let expected = try_add_bias(a@, b@);
        assert(expected is Some);
        assert(m@ =~~= expected.unwrap());
    }
    Ok(m)
}

/// The grand sum of all entries of `a`, row by row, left to right.
pub fn mat_sum(a: &Matrix) -> (r: Result<Rat, Error>)
    requires
        a.wf(),
    ensures
        r == Err::<Rat, Error>(Error::Overflow) <==> try_mat_sum(a@) is None,
        r matches Ok(s) ==> s.wf() && Some(s@) == try_mat_sum(a@),
        r is Ok || r == Err::<Rat, Error>(Error::Overflow),
{
    let mut acc: Rat = Rat::zero();
    let mut i: usize = 0;
    proof {
        if a.rows == 0 {
            assert(try_mat_sum(a@) == Some(q_zero()));
        }
    }
    while i < a.rows
        invariant
            a.wf(),
            i <= a.rows,
            acc.wf(),
            Some(acc@) == try_sum_rows(a@, vcols(a@), i as int),
            a.rows > 0 ==> vcols(a@) == a.cols,
        decreases a.rows - i,
    {
        let mut j: usize = 0;
        let ghost acc_start: Q = acc@;
        while j < a.cols
            invariant
                a.wf(),
                i < a.rows,
                j <= a.cols,
                acc.wf(),
                vcols(a@) == a.cols,
                Some(acc_start) == try_sum_rows(a@, vcols(a@), i as int),
                Some(acc@) == try_sum_row(Some(acc_start), a@[i as int], j as int),
            decreases a.cols - j,
        {
            acc = match rat_add(&acc, &a.at(i, j)) {
                Some(v) => v,
                None => {
                    proof {
                        lemma_sum_row_none(Some(acc_start), a@[i as int], j + 1, a.cols as int);
                        lemma_sum_rows_none(a@, vcols(a@), i + 1, a.rows as int);
                    }
                    return Err(Error::Overflow);
                },
            };
            j = j + 1;
        }
        i = i + 1;
    }
    Ok(acc)
}

/// Once a dot-product prefix fails, the whole fold fails.
proof fn lemma_dot_none(a: Seq<Q>, b: Seq<Q>, n: int, m: int)
    requires
        try_dot(a, b, n) is None,
        n <= m,
    ensures
        try_dot(a, b, m) is None,
    decreases m - n,
{
    if n < m {
        lemma_dot_none(a, b, n + 1, m);
    }
}

/// A failed accumulator stays failed over any further entries.
proof fn lemma_sum_row_acc_none(row: Seq<Q>, n: int)
    ensures
        try_sum_row(None, row, n) is None,
    decreases n,
{
    if n > 0 {
        lemma_sum_row_acc_none(row, n - 1);
    }
}

/// Once a row-sum prefix fails, the whole row fails.
proof fn lemma_sum_row_none(acc: Option<Q>, row: Seq<Q>, n: int, m: int)
    requires
        try_sum_row(acc, row, n) is None,
        n <= m,
    ensures
        try_sum_row(acc, row, m) is None,
    decreases m - n,
{
    if n < m {
        lemma_sum_row_none(acc, row, n + 1, m);
    }
}

/// Once a whole-matrix sum prefix fails, the whole sum fails.
proof fn lemma_sum_rows_none(v: Seq<Seq<Q>>, cols: int, n: int, m: int)
    requires
        try_sum_rows(v, cols, n) is None,
        n <= m,
    ensures
        try_sum_rows(v, cols, m) is None,
    decreases m - n,
{
    if n < m {
        lemma_sum_row_acc_none(v[n], cols);
        lemma_sum_rows_none(v, cols, n + 1, m);
    }
}

} // verus!

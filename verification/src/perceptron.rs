use crate::activation::{derivative_relu, relu_deriv_spec, Activation};
use crate::matrix::{
    mat_add_bias, mat_hadamard, mat_matmul, mat_scale, mat_sub, mat_sum, try_add_bias, try_ew_mul,
    try_ew_sub, try_mat_sum, try_matmul, try_scale, vtranspose, Matrix,
};
use crate::rat::{q_le, q_lt, q_try_mul, rat_mul, Q, Rat};
use crate::Error;
use rand::RngExt;
use vstd::prelude::*;

verus! {

/// One dense layer: a weight matrix, a bias column and an activation,
/// computing `activation(weights * input + bias)`.
pub struct PerceptronLayer<A: Activation> {
    pub weights: Matrix,
    pub bias: Matrix,
    pub activation: A,
}

/// Relies on rand's `random_range`: a uniform random value in `[lo, hi)`.
#[verifier::external_body]
fn random_in_range(lo: i64, hi: i64) -> (r: i64)
    requires
        lo < hi,
    ensures
        lo <= r < hi,
{
    rand::rng().random_range(lo..hi)
}

/// Whether an initial parameter lies in `[-1/2, 1/2)`.
pub open spec fn init_range(e: Q) -> bool {
    q_le(Q { n: -1, d: 2 }, e) && q_lt(e, Q { n: 1, d: 2 })
}

/// A matrix of uniform random thousandths drawn from `[-1/2, 1/2)`.
fn random_matrix(rows: usize, cols: usize) -> (r: Matrix)
    ensures
        r.wf(),
        r.rows == rows,
        r.cols == cols,
        forall|i: int, j: int| 0 <= i < rows && 0 <= j < cols ==> init_range(#[trigger] r@[i][j]),
{
    let mut data: Vec<Vec<Rat>> = Vec::new();
    let mut i: usize = 0;
    while i < rows
        invariant
            i <= rows,
            data@.len() == i,
            crate::matrix::data_ok(data@, cols as int),
            forall|ii: int, jj: int|
                0 <= ii < i && 0 <= jj < cols ==> init_range(#[trigger] data@[ii]@[jj]@),
        decreases rows - i,
    {
        let mut row: Vec<Rat> = Vec::new();
        let mut j: usize = 0;
        while j < cols
            invariant
                j <= cols,
                row@.len() == j,
                forall|jj: int| 0 <= jj < j ==> (#[trigger] row@[jj]).wf(),
                forall|jj: int| 0 <= jj < j ==> init_range(#[trigger] row@[jj]@),
            decreases cols - j,
        {
            let k: i64 = random_in_range(-500, 500);
            let v: Rat = match Rat::new(k as i128, 1000) {
                Some(v) => v,
                None => Rat::zero(),
            };
            proof {
                crate::rat::lemma_q_eq_order(
                    Q { n: -1, d: 2 },
                    Q { n: k as int, d: 1000 },
                    v@,
                );
                crate::rat::lemma_q_eq_order(Q { n: 1, d: 2 }, Q { n: k as int, d: 1000 }, v@);
            }
            row.push(v);
            j = j + 1;
        }
        data.push(row);
        i = i + 1;
    }
    Matrix { rows, cols, data }
}

/// The affine step `w * x + b` (bias broadcast over the columns).
pub open spec fn try_affine(w: Seq<Seq<Q>>, b: Seq<Seq<Q>>, x: Seq<Seq<Q>>, xcols: int) -> Option<
    Seq<Seq<Q>>,
> {
    match try_matmul(w, x, xcols) {
        None => None,
        Some(p) => try_add_bias(p, b),
    }
}

/// The full layer step: affine, then the activation.
pub open spec fn try_layer_out<A: Activation>(
    l: PerceptronLayer<A>,
    x: Seq<Seq<Q>>,
    xcols: int,
) -> Option<Seq<Seq<Q>>> {
    match try_affine(l.weights@, l.bias@, x, xcols) {
        None => None,
        Some(z) => Some(l.activation.spec_apply(z, xcols)),
    }
}

impl<A: Activation> PerceptronLayer<A> {
    pub open spec fn wf(&self) -> bool {
        &&& self.weights.wf()
        &&& self.bias.wf()
        &&& self.bias.rows == self.weights.rows
        &&& self.bias.cols == 1
    }

    /// A fresh layer with `neurons` outputs and `conns` inputs, both parameter
    /// matrices filled with independent uniform values in `[-1/2, 1/2)`.
    pub fn new(neurons: usize, conns: usize, activation: A) -> (r: PerceptronLayer<A>)
        ensures
            r.wf(),
            r.weights.rows == neurons,
            r.weights.cols == conns,
            r.bias.rows == neurons,
            r.bias.cols == 1,
            r.activation == activation,
            forall|i: int, j: int|
                0 <= i < neurons && 0 <= j < conns ==> init_range(#[trigger] r.weights@[i][j]),
            forall|i: int| 0 <= i < neurons ==> init_range(#[trigger] r.bias@[i][0]),
    {
        PerceptronLayer { weights: random_matrix(neurons, conns), bias: random_matrix(neurons, 1), activation }
    }

    /// One forward step on `input`: `activation(weights * input + bias)`.
    pub fn synapse(&self, input: &Matrix) -> (r: Result<Matrix, Error>)
        requires
            self.wf(),
            input.wf(),
        ensures
            r == Err::<Matrix, Error>(Error::ShapeMismatch) <==> self.weights.cols != input.rows,
            self.weights.cols == input.rows ==> (r == Err::<Matrix, Error>(Error::Overflow)
                <==> try_layer_out(*self, input@, input.cols as int) is None),
            r matches Ok(m) ==> m.wf() && m.rows == self.weights.rows && m.cols == input.cols
                && Some(m@) == try_layer_out(*self, input@, input.cols as int),
            r is Err ==> r == Err::<Matrix, Error>(Error::ShapeMismatch) || r == Err::<
                Matrix,
                Error,
            >(Error::Overflow),
    {
        let z = match mat_matmul(&self.weights, input) {
            Ok(v) => v,
            Err(e) => { return Err(e); },
        };
        let zb = match mat_add_bias(&z, &self.bias) {
            Ok(v) => v,
            Err(e) => { return Err(e); },
        };
        Ok(self.activation.apply(&zb))
    }
}

/// The parameter matrices of a layer stack, as views, layer by layer.
pub open spec fn layer_params<A: Activation>(ls: Seq<PerceptronLayer<A>>) -> Seq<
    (Seq<Seq<Q>>, Seq<Seq<Q>>),
> {
    Seq::new(ls.len(), |i: int| (ls[i].weights@, ls[i].bias@))
}

/// The forward pass through the first `k` layers: `layers` gives shapes and
/// activations, `params` the current parameter values. Returns the output view
/// and its row count, or the first failure.
pub open spec fn try_forward<A: Activation>(
    layers: Seq<PerceptronLayer<A>>,
    params: Seq<(Seq<Seq<Q>>, Seq<Seq<Q>>)>,
    x: Seq<Seq<Q>>,
    xrows: int,
    xcols: int,
    k: int,
) -> Result<(Seq<Seq<Q>>, int), Error>
    decreases k,
{
    if k <= 0 {
        Ok((x, xrows))
    } else {
        match try_forward(layers, params, x, xrows, xcols, k - 1) {
            Err(e) => Err(e),
            Ok(cur) => {
                if layers[k - 1].weights.cols as int != cur.1 {
                    Err(Error::ShapeMismatch)
                } else {
                    match try_affine(params[k - 1].0, params[k - 1].1, cur.0, xcols) {
                        None => Err(Error::Overflow),
                        Some(z) => Ok(
                            (
                                layers[k - 1].activation.spec_apply(z, xcols),
                                layers[k - 1].weights.rows as int,
                            ),
                        ),
                    }
                }
            },
        }
    }
}

/// Shape law: a forward pass through `k >= 1` layers that succeeds returns a
/// matrix with as many rows as the last layer's output width, and the batch
/// size (the column count) is preserved by construction of the pass.
pub proof fn lemma_forward_shape<A: Activation>(
    layers: Seq<PerceptronLayer<A>>,
    params: Seq<(Seq<Seq<Q>>, Seq<Seq<Q>>)>,
    x: Seq<Seq<Q>>,
    xrows: int,
    xcols: int,
    k: int,
)
    requires
        1 <= k,
        try_forward(layers, params, x, xrows, xcols, k) is Ok,
    ensures
        try_forward(layers, params, x, xrows, xcols, k)->Ok_0.1 == layers[k
            - 1].weights.rows as int,
{
}

/// Determinism of the forward pass: two results of `MLP::synapse` for the
/// same parameters and the same input are identical, entry for entry, since
/// each equals the one value the forward chain defines.
pub proof fn lemma_forward_deterministic<A: Activation>(
    net: &MLP<A>,
    input: &Matrix,
    r1: &Matrix,
    r2: &Matrix,
)
    requires
        try_forward(
            net.layers@,
            layer_params(net.layers@),
            input@,
            input.rows as int,
            input.cols as int,
            net.layers@.len() as int,
        ) == Ok::<(Seq<Seq<Q>>, int), Error>((r1@, r1.rows as int)),
        try_forward(
            net.layers@,
            layer_params(net.layers@),
            input@,
            input.rows as int,
            input.cols as int,
            net.layers@.len() as int,
        ) == Ok::<(Seq<Seq<Q>>, int), Error>((r2@, r2.rows as int)),
    ensures
        r1@ == r2@,
        r1.rows == r2.rows,
{
}

/// A failed forward prefix decides the whole pass.
pub proof fn lemma_forward_err<A: Activation>(
    layers: Seq<PerceptronLayer<A>>,
    params: Seq<(Seq<Seq<Q>>, Seq<Seq<Q>>)>,
    x: Seq<Seq<Q>>,
    xrows: int,
    xcols: int,
    n: int,
    m: int,
)
    requires
        try_forward(layers, params, x, xrows, xcols, n) is Err,
        n <= m,
    ensures
        try_forward(layers, params, x, xrows, xcols, m) == try_forward(
            layers,
            params,
            x,
            xrows,
            xcols,
            n,
        ),
    decreases m - n,
{
    if n < m {
        lemma_forward_err(layers, params, x, xrows, xcols, n + 1, m);
    }
}

/// The captured pre-activation and activation output of one layer.
pub struct SynapseBreakdown {
    pub z: Matrix,
    pub a: Matrix,
}

/// The forward pass through the first `k` layers, recording each layer's
/// pre-activation and activation views in order.
pub open spec fn try_breakdown<A: Activation>(
    layers: Seq<PerceptronLayer<A>>,
    params: Seq<(Seq<Seq<Q>>, Seq<Seq<Q>>)>,
    x: Seq<Seq<Q>>,
    xrows: int,
    xcols: int,
    k: int,
) -> Result<Seq<(Seq<Seq<Q>>, Seq<Seq<Q>>)>, Error>
    decreases k,
{
    if k <= 0 {
        Ok(Seq::empty())
    } else {
        match try_breakdown(layers, params, x, xrows, xcols, k - 1) {
            Err(e) => Err(e),
            Ok(bk) => {
                let prev = if k == 1 {
                    x
                } else {
                    bk[k - 2].1
                };
                let prev_rows = if k == 1 {
                    xrows
                } else {
                    layers[k - 2].weights.rows as int
                };
                if layers[k - 1].weights.cols as int != prev_rows {
                    Err(Error::ShapeMismatch)
                } else {
                    match try_affine(params[k - 1].0, params[k - 1].1, prev, xcols) {
                        None => Err(Error::Overflow),
                        Some(z) => Ok(
                            bk.push((z, layers[k - 1].activation.spec_apply(z, xcols))),
                        ),
                    }
                }
            },
        }
    }
}

/// An ordered stack of perceptron layers.
pub struct MLP<A: Activation> {
    pub layers: Vec<PerceptronLayer<A>>,
}

impl<A: Activation> MLP<A> {
    pub open spec fn wf(&self) -> bool {
        forall|i: int| 0 <= i < self.layers@.len() ==> (#[trigger] self.layers@[i]).wf()
    }

    /// An empty network.
    pub fn new() -> (r: MLP<A>)
        ensures
            r.layers@.len() == 0,
            r.wf(),
    {
        MLP { layers: Vec::new() }
    }

    /// The network extended by one more layer at the end.
    pub fn push(self, layer: PerceptronLayer<A>) -> (r: MLP<A>)
        ensures
            r.layers@ == self.layers@.push(layer),
    {
        let mut m = self;
        m.layers.push(layer);
        m
    }

    /// The full forward pass: each layer's output feeds the next; the batch
    /// size (column count) is preserved.
    pub fn synapse(&self, input: &Matrix) -> (r: Result<Matrix, Error>)
        requires
            self.wf(),
            input.wf(),
        ensures
            r matches Ok(m) ==> m.wf() && m.cols == input.cols && try_forward(
                self.layers@,
                layer_params(self.layers@),
                input@,
                input.rows as int,
                input.cols as int,
                self.layers@.len() as int,
            ) == Ok::<(Seq<Seq<Q>>, int), Error>((m@, m.rows as int)),
            r matches Err(e) ==> try_forward(
                self.layers@,
                layer_params(self.layers@),
                input@,
                input.rows as int,
                input.cols as int,
                self.layers@.len() as int,
            ) == Err::<(Seq<Seq<Q>>, int), Error>(e),
    {
        let mut cur: Matrix = input.duplicate();
        let mut i: usize = 0;
        while i < self.layers.len()
            invariant
                self.wf(),
                input.wf(),
                i <= self.layers@.len(),
                cur.wf(),
                cur.cols == input.cols,
                try_forward(
                    self.layers@,
                    layer_params(self.layers@),
                    input@,
                    input.rows as int,
                    input.cols as int,
                    i as int,
                ) == Ok::<(Seq<Seq<Q>>, int), Error>((cur@, cur.rows as int)),
            decreases self.layers@.len() - i,
        {
            let l = &self.layers[i];
            cur = match l.synapse(&cur) {
                Ok(v) => v,
                Err(e) => {
                    proof {
                        lemma_forward_err(
                            self.layers@,
                            layer_params(self.layers@),
                            input@,
                            input.rows as int,
                            input.cols as int,
                            i + 1,
                            self.layers@.len() as int,
                        );
                    }
                    return Err(e);
                },
            };
            i = i + 1;
        }
        Ok(cur)
    }

    /// The forward pass that records, for every layer, its pre-activation
    /// `z` and activation `a`; a value with no exact representation stops it
    /// with an `Overflow` error, the analogue of a corrupted numeric state.
    pub fn synapse_breakdown(&self, input: &Matrix) -> (r: Result<Vec<SynapseBreakdown>, Error>)
        requires
            self.wf(),
            input.wf(),
            self.layers@.len() > 0,
        ensures
            r matches Ok(v) ==> {
                &&& v@.len() == self.layers@.len()
                &&& try_breakdown(
                    self.layers@,
                    layer_params(self.layers@),
                    input@,
                    input.rows as int,
                    input.cols as int,
                    self.layers@.len() as int,
                ) == Ok::<Seq<(Seq<Seq<Q>>, Seq<Seq<Q>>)>, Error>(
                    Seq::new(v@.len(), |i: int| (v@[i].z@, v@[i].a@)),
                )
                &&& forall|i: int|
                    0 <= i < v@.len() ==> (#[trigger] v@[i]).z.wf() && v@[i].a.wf()
                        && v@[i].z.rows == self.layers@[i].weights.rows && v@[i].a.rows
                        == self.layers@[i].weights.rows && v@[i].z.cols == input.cols
                        && v@[i].a.cols == input.cols
                &&& self.layers@[0].weights.cols == input.rows
                &&& forall|i: int|
                    1 <= i < self.layers@.len() ==> (#[trigger] self.layers@[i]).weights.cols
                        == self.layers@[i - 1].weights.rows
            },
            r matches Err(e) ==> try_breakdown(
                self.layers@,
                layer_params(self.layers@),
                input@,
                input.rows as int,
                input.cols as int,
                self.layers@.len() as int,
            ) == Err::<Seq<(Seq<Seq<Q>>, Seq<Seq<Q>>)>, Error>(e),
    {
        let mut out: Vec<SynapseBreakdown> = Vec::new();
        let mut cur: Matrix = input.duplicate();
        let mut i: usize = 0;
        proof {
            let empty: Seq<(Seq<Seq<Q>>, Seq<Seq<Q>>)> = Seq::empty();
            assert(Seq::new(0 as nat, |ii: int| (out@[ii].z@, out@[ii].a@)) =~= empty);
        }
        while i < self.layers.len()
            invariant
                self.wf(),
                input.wf(),
                i <= self.layers@.len(),
                out@.len() == i,
                cur.wf(),
                cur.cols == input.cols,
                cur.rows == if i == 0 {
                    input.rows
                } else {
                    self.layers@[i - 1].weights.rows
                },
                i == 0 ==> cur@ == input@,
                i > 0 ==> cur@ == out@[i - 1].a@,
                try_breakdown(
                    self.layers@,
                    layer_params(self.layers@),
                    input@,
                    input.rows as int,
                    input.cols as int,
                    i as int,
                ) == Ok::<Seq<(Seq<Seq<Q>>, Seq<Seq<Q>>)>, Error>(
                    Seq::new(i as nat, |ii: int| (out@[ii].z@, out@[ii].a@)),
                ),
                forall|ii: int|
                    0 <= ii < i ==> (#[trigger] out@[ii]).z.wf() && out@[ii].a.wf()
                        && out@[ii].z.rows == self.layers@[ii].weights.rows && out@[ii].a.rows
                        == self.layers@[ii].weights.rows && out@[ii].z.cols == input.cols
                        && out@[ii].a.cols == input.cols,
                i > 0 ==> self.layers@[0].weights.cols == input.rows,
                forall|ii: int|
                    1 <= ii < i ==> (#[trigger] self.layers@[ii]).weights.cols == self.layers@[ii
                        - 1].weights.rows,
            decreases self.layers@.len() - i,
        {
            let ghost pre = Seq::new(i as nat, |ii: int| (out@[ii].z@, out@[ii].a@));
            let l = &self.layers[i];
            let z = match mat_matmul(&l.weights, &cur) {
                Ok(v) => v,
                Err(e) => {
                    proof {
                        lemma_breakdown_err(
                            self.layers@,
                            layer_params(self.layers@),
                            input@,
                            input.rows as int,
                            input.cols as int,
                            i + 1,
                            self.layers@.len() as int,
                        );
                    }
                    return Err(e);
                },
            };
            let zb = match mat_add_bias(&z, &l.bias) {
                Ok(v) => v,
                Err(e) => {
                    proof {
                        lemma_breakdown_err(
                            self.layers@,
                            layer_params(self.layers@),
                            input@,
                            input.rows as int,
                            input.cols as int,
                            i + 1,
                            self.layers@.len() as int,
                        );
                    }
                    return Err(e);
                },
            };
            let a = l.activation.apply(&zb);
            let a2 = a.duplicate();
            out.push(SynapseBreakdown { z: zb, a });
            proof {
                assert(Seq::new((i + 1) as nat, |ii: int| (out@[ii].z@, out@[ii].a@)) =~= pre.push(
                    (out@[i as int].z@, out@[i as int].a@),
                ));
            }
            cur = a2;
            i = i + 1;
        }
        Ok(out)
    }
}

/// The two-layer backpropagation chain, for a softmax-like output paired with
/// one-hot targets over `n` samples:
/// `dZ2 = a2 - onehot`, `dW2 = (dZ2 * a1') * (1/n)`, `dB2 = (1/n) * sum(dZ2)`,
/// `dZ1 = (w2' * dZ2) . relu'(z1)` (elementwise), `dW1 = (dZ1 * x') * (1/n)`,
/// `dB1 = (1/n) * sum(dZ1)`; `None` as soon as a machine value does not fit.
pub open spec fn try_bp(
    w2: Seq<Seq<Q>>,
    w2cols: int,
    z1: Seq<Seq<Q>>,
    a1: Seq<Seq<Q>>,
    a2: Seq<Seq<Q>>,
    x: Seq<Seq<Q>>,
    onehot: Seq<Seq<Q>>,
    n: int,
    inv_n: Q,
) -> Option<((Seq<Seq<Q>>, Q), (Seq<Seq<Q>>, Q))> {
    match try_ew_sub(a2, onehot) {
        None => None,
        Some(dz2) => match try_matmul(dz2, vtranspose(a1, n), a1.len() as int) {
            None => None,
            Some(m2) => match try_scale(m2, inv_n) {
                None => None,
                Some(dw2) => match try_mat_sum(dz2) {
                    None => None,
                    Some(s2) => match q_try_mul(inv_n, s2) {
                        None => None,
                        Some(db2) => match try_matmul(vtranspose(w2, w2cols), dz2, n) {
                            None => None,
                            Some(m1) => match try_ew_mul(m1, relu_deriv_spec(z1, n)) {
                                None => None,
                                Some(dz1) => match try_matmul(
                                    dz1,
                                    vtranspose(x, n),
                                    x.len() as int,
                                ) {
                                    None => None,
                                    Some(m0) => match try_scale(m0, inv_n) {
                                        None => None,
                                        Some(dw1) => match try_mat_sum(dz1) {
                                            None => None,
                                            Some(s1) => match q_try_mul(inv_n, s1) {
                                                None => None,
                                                Some(db1) => Some(((dw1, db1), (dw2, db2))),
                                            },
                                        },
                                    },
                                },
                            },
                        },
                    },
                },
            },
        },
    }
}

impl<A: Activation> MLP<A> {
    /// The gradients of a two-layer network from a captured forward pass:
    /// the ordered pair `(dW, dB)` per layer, first layer first. The bias
    /// gradient is the single scalar `sum(dZ) / n`, as the update broadcasts
    /// one scalar onto the whole bias column.
    pub fn calculate_bp(
        &self,
        synapses: &Vec<SynapseBreakdown>,
        input: &Matrix,
        onehot: &Matrix,
    ) -> (r: Result<Vec<(Matrix, Rat)>, Error>)
        requires
            self.wf(),
            input.wf(),
            onehot.wf(),
            self.layers@.len() == 2,
            synapses@.len() == 2,
            input.cols > 0,
            synapses@[0].z.wf(),
            synapses@[0].a.wf(),
            synapses@[1].a.wf(),
            synapses@[0].z.rows == synapses@[0].a.rows,
            synapses@[0].a.rows == self.layers@[1].weights.cols,
            synapses@[0].z.cols == input.cols,
            synapses@[0].a.cols == input.cols,
            synapses@[1].a.rows == self.layers@[1].weights.rows,
            synapses@[1].a.cols == input.cols,
            onehot.rows == synapses@[1].a.rows,
            onehot.cols == input.cols,
        ensures
            r matches Ok(v) ==> {
                &&& v@.len() == 2
                &&& v@[0].0.wf() && v@[0].1.wf() && v@[1].0.wf() && v@[1].1.wf()
                &&& v@[0].0.rows == self.layers@[1].weights.cols && v@[0].0.cols == input.rows
                &&& v@[1].0.rows == self.layers@[1].weights.rows && v@[1].0.cols
                    == self.layers@[1].weights.cols
                &&& try_bp(
                    self.layers@[1].weights@,
                    self.layers@[1].weights.cols as int,
                    synapses@[0].z@,
                    synapses@[0].a@,
                    synapses@[1].a@,
                    input@,
                    onehot@,
                    input.cols as int,
                    crate::rat::q_reduce(Q { n: 1, d: input.cols as int }),
                ) == Some(((v@[0].0@, v@[0].1@), (v@[1].0@, v@[1].1@)))
            },
            r matches Err(e) ==> e == Error::Overflow && try_bp(
                self.layers@[1].weights@,
                self.layers@[1].weights.cols as int,
                synapses@[0].z@,
                synapses@[0].a@,
                synapses@[1].a@,
                input@,
                onehot@,
                input.cols as int,
                crate::rat::q_reduce(Q { n: 1, d: input.cols as int }),
            ) is None,
    {
        let s0 = &synapses[0];
        let s1 = &synapses[1];
        let n = input.cols;
        let inv_n: Rat = match Rat::new(1, n as i128) {
            Some(v) => v,
            None => Rat::zero(),
        };
        let dz2 = match mat_sub(&s1.a, onehot) {
            Ok(v) => v,
            Err(_) => { return Err(Error::Overflow); },
        };
        let a1t = s0.a.transpose();
        let m2 = match mat_matmul(&dz2, &a1t) {
            Ok(v) => v,
            Err(_) => { return Err(Error::Overflow); },
        };
        let dw2 = match mat_scale(&m2, &inv_n) {
            Ok(v) => v,
            Err(_) => { return Err(Error::Overflow); },
        };
        let sum2 = match mat_sum(&dz2) {
            Ok(v) => v,
            Err(_) => { return Err(Error::Overflow); },
        };
        let db2 = match rat_mul(&inv_n, &sum2) {
            Some(v) => v,
            None => { return Err(Error::Overflow); },
        };
        let w2t = self.layers[1].weights.transpose();
        let m1 = match mat_matmul(&w2t, &dz2) {
            Ok(v) => v,
            Err(_) => { return Err(Error::Overflow); },
        };
        let d1 = derivative_relu(&s0.z);
        let dz1 = match mat_hadamard(&m1, &d1) {
            Ok(v) => v,
            Err(_) => { return Err(Error::Overflow); },
        };
        let xt = input.transpose();
        let m0 = match mat_matmul(&dz1, &xt) {
            Ok(v) => v,
            Err(_) => { return Err(Error::Overflow); },
        };
        let dw1 = match mat_scale(&m0, &inv_n) {
            Ok(v) => v,
            Err(_) => { return Err(Error::Overflow); },
        };
        let sum1 = match mat_sum(&dz1) {
            Ok(v) => v,
            Err(_) => { return Err(Error::Overflow); },
        };
        let db1 = match rat_mul(&inv_n, &sum1) {
            Some(v) => v,
            None => { return Err(Error::Overflow); },
        };
        let mut out: Vec<(Matrix, Rat)> = Vec::new();
        out.push((dw1, db1));
        out.push((dw2, db2));
        Ok(out)
    }
}

/// A failed breakdown prefix decides the whole pass.
pub proof fn lemma_breakdown_err<A: Activation>(
    layers: Seq<PerceptronLayer<A>>,
    params: Seq<(Seq<Seq<Q>>, Seq<Seq<Q>>)>,
    x: Seq<Seq<Q>>,
    xrows: int,
    xcols: int,
    n: int,
    m: int,
)
    requires
        try_breakdown(layers, params, x, xrows, xcols, n) is Err,
        n <= m,
    ensures
        try_breakdown(layers, params, x, xrows, xcols, m) == try_breakdown(
            layers,
            params,
            x,
            xrows,
            xcols,
            n,
        ),
    decreases m - n,
{
    if n < m {
        lemma_breakdown_err(layers, params, x, xrows, xcols, n + 1, m);
    }
}

} // verus!

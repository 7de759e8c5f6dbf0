use crate::activation::Activation;
use crate::array::{argmax_spec, label_ok, max, one_hot, one_hot_spec};
use crate::matrix::{mat_scale, mat_sub, mat_sub_scalar, try_ew_sub, try_scale, try_sub_scalar,
    vcol, Matrix};
use crate::perceptron::{layer_params, try_bp, try_breakdown, PerceptronLayer, MLP};
use crate::rat::{q_eq, q_one, q_reduce, q_try_mul, q_zero, rat_mul, rat_value_eq, Q, Rat};
use crate::Error;
use vstd::prelude::*;

verus! {

/// Whether column `j` of the one-hot targets equals the unit vector at the
/// first maximum of column `j` of the prediction.
pub open spec fn col_match(pred: Seq<Seq<Q>>, t: Seq<Seq<Q>>, rows: int, j: int) -> bool {
    forall|i: int|
        0 <= i < rows ==> q_eq(
            #[trigger] t[i][j],
            if i == argmax_spec(vcol(pred, j), rows) {
                q_one()
            } else {
                q_zero()
            },
        )
}

/// How many of the first `j` sample columns are classified exactly right.
pub open spec fn match_count(pred: Seq<Seq<Q>>, t: Seq<Seq<Q>>, rows: int, j: int) -> int
    decreases j,
{
    if j <= 0 {
        0
    } else {
        match_count(pred, t, rows, j - 1) + if col_match(pred, t, rows, j - 1) {
            1int
        } else {
            0int
        }
    }
}

/// The fraction of sample columns whose argmax row matches the target.
pub open spec fn accuracy_spec(pred: Seq<Seq<Q>>, t: Seq<Seq<Q>>, rows: int, cols: int) -> Q {
    Q { n: match_count(pred, t, rows, cols), d: cols }
}

/// One gradient-descent step on a layer's parameters:
/// `w - dw * alpha`, and `b` with the scalar `alpha * db` subtracted from
/// every entry.
pub open spec fn try_update(
    w: Seq<Seq<Q>>,
    b: Seq<Seq<Q>>,
    dw: Seq<Seq<Q>>,
    db: Q,
    alpha: Q,
) -> Option<(Seq<Seq<Q>>, Seq<Seq<Q>>)> {
    match try_scale(dw, alpha) {
        None => None,
        Some(s) => match try_ew_sub(w, s) {
            None => None,
            Some(w2) => match q_try_mul(alpha, db) {
                None => None,
                Some(sb) => match try_sub_scalar(b, sb) {
                    None => None,
                    Some(b2) => Some((w2, b2)),
                },
            },
        },
    }
}

/// One epoch of a two-layer network: forward pass with capture, one-hot
/// encoding of the labels against the output width, backpropagation, the
/// gradient-descent update of both layers, and the accuracy of the
/// pre-update output against the targets.
pub open spec fn try_epoch<A: Activation>(
    layers: Seq<PerceptronLayer<A>>,
    params: Seq<(Seq<Seq<Q>>, Seq<Seq<Q>>)>,
    x: Seq<Seq<Q>>,
    xrows: int,
    xcols: int,
    labels: Seq<Seq<Q>>,
    alpha: Q,
) -> Result<(Seq<(Seq<Seq<Q>>, Seq<Seq<Q>>)>, Q), Error> {
    match try_breakdown(layers, params, x, xrows, xcols, 2) {
        Err(e) => Err(e),
        Ok(bk) => {
            let classes = layers[1].weights.rows as int;
            if exists|j: int| 0 <= j < xcols && !label_ok(labels[0][j], classes) {
                Err(Error::LabelOutOfRange)
            } else {
                let oh = one_hot_spec(labels, classes, xcols);
                match try_bp(
                    params[1].0,
                    layers[1].weights.cols as int,
                    bk[0].0,
                    bk[0].1,
                    bk[1].1,
                    x,
                    oh,
                    xcols,
                    q_reduce(Q { n: 1, d: xcols }),
                ) {
                    None => Err(Error::Overflow),
                    Some(g) => match try_update(params[0].0, params[0].1, g.0.0, g.0.1, alpha) {
                        None => Err(Error::Overflow),
                        Some(p0) => match try_update(
                            params[1].0,
                            params[1].1,
                            g.1.0,
                            g.1.1,
                            alpha,
                        ) {
                            None => Err(Error::Overflow),
                            Some(p1) => Ok(
                                (
                                    seq![p0, p1],
                                    q_reduce(accuracy_spec(bk[1].1, oh, classes, xcols)),
                                ),
                            ),
                        },
                    },
                }
            }
        },
    }
}

/// `k` epochs in order: the parameters after each epoch feed the next, and
/// the per-epoch accuracies are collected in order.
pub open spec fn try_train<A: Activation>(
    layers: Seq<PerceptronLayer<A>>,
    params: Seq<(Seq<Seq<Q>>, Seq<Seq<Q>>)>,
    x: Seq<Seq<Q>>,
    xrows: int,
    xcols: int,
    labels: Seq<Seq<Q>>,
    alpha: Q,
    k: int,
) -> Result<(Seq<(Seq<Seq<Q>>, Seq<Seq<Q>>)>, Seq<Q>), Error>
    decreases k,
{
    if k <= 0 {
        Ok((params, Seq::empty()))
    } else {
        match try_train(layers, params, x, xrows, xcols, labels, alpha, k - 1) {
            Err(e) => Err(e),
            Ok(st) => match try_epoch(layers, st.0, x, xrows, xcols, labels, alpha) {
                Err(e) => Err(e),
                Ok(ep) => Ok((ep.0, st.1.push(ep.1))),
            },
        }
    }
}

/// A failed training prefix decides the whole run.
proof fn lemma_train_err<A: Activation>(
    layers: Seq<PerceptronLayer<A>>,
    params: Seq<(Seq<Seq<Q>>, Seq<Seq<Q>>)>,
    x: Seq<Seq<Q>>,
    xrows: int,
    xcols: int,
    labels: Seq<Seq<Q>>,
    alpha: Q,
    n: int,
    m: int,
)
    requires
        try_train(layers, params, x, xrows, xcols, labels, alpha, n) is Err,
        n <= m,
    ensures
        try_train(layers, params, x, xrows, xcols, labels, alpha, m) == try_train(
            layers,
            params,
            x,
            xrows,
            xcols,
            labels,
            alpha,
            n,
        ),
    decreases m - n,
{
    if n < m {
        lemma_train_err(layers, params, x, xrows, xcols, labels, alpha, n + 1, m);
    }
}

/// The captured forward pass reads only layer shapes and activations, never
/// the layers' own matrices (those come from `params`).
proof fn lemma_breakdown_shape_congruent<A: Activation>(
    l1: Seq<PerceptronLayer<A>>,
    l2: Seq<PerceptronLayer<A>>,
    params: Seq<(Seq<Seq<Q>>, Seq<Seq<Q>>)>,
    x: Seq<Seq<Q>>,
    xrows: int,
    xcols: int,
    k: int,
)
    requires
        l1.len() == l2.len(),
        k <= l1.len(),
        forall|i: int|
            0 <= i < l1.len() ==> #[trigger] l1[i].activation == l2[i].activation
                && l1[i].weights.rows == l2[i].weights.rows && l1[i].weights.cols
                == l2[i].weights.cols,
    ensures
        try_breakdown(l1, params, x, xrows, xcols, k) == try_breakdown(
            l2,
            params,
            x,
            xrows,
            xcols,
            k,
        ),
    decreases k,
{
    if k > 0 {
        lemma_breakdown_shape_congruent(l1, l2, params, x, xrows, xcols, k - 1);
    }
}

/// A network under training: the layer stack, the learning rate `alpha`, and
/// the number of epochs to run.
pub struct Trainer<A: Activation> {
    pub mlp: MLP<A>,
    pub alpha: Rat,
    pub epochs: u32,
}

impl<A: Activation> Trainer<A> {
    pub open spec fn wf(&self) -> bool {
        self.mlp.wf() && self.alpha.wf()
    }

    pub fn new(mlp: MLP<A>, alpha: Rat, epochs: u32) -> (r: Trainer<A>)
        ensures
            r.mlp == mlp,
            r.alpha == alpha,
            r.epochs == epochs,
    {
        Trainer { mlp, alpha, epochs }
    }

    /// The fraction of sample columns whose first-maximum row in `prediction`
    /// points at the 1 of the corresponding one-hot target column; ties in the
    /// prediction resolve to the lowest row index.
    pub fn accuracy(prediction: &Matrix, input_labels: &Matrix) -> (r: Rat)
        requires
            prediction.wf(),
            input_labels.wf(),
            prediction.rows == input_labels.rows,
            prediction.cols == input_labels.cols,
            prediction.rows > 0,
            prediction.cols > 0,
        ensures
            r.wf(),
            r@ == q_reduce(
                accuracy_spec(
                    prediction@,
                    input_labels@,
                    prediction.rows as int,
                    prediction.cols as int,
                ),
            ),
            q_eq(
                r@,
                accuracy_spec(
                    prediction@,
                    input_labels@,
                    prediction.rows as int,
                    prediction.cols as int,
                ),
            ),
    {
        let rows = prediction.rows;
        let cols = prediction.cols;
        let mut count: usize = 0;
        let mut j: usize = 0;
        while j < cols
            invariant
                prediction.wf(),
                input_labels.wf(),
                rows == prediction.rows,
                cols == prediction.cols,
                prediction.rows == input_labels.rows,
                prediction.cols == input_labels.cols,
                rows > 0,
                j <= cols,
                count <= j,
                count as int == match_count(
                    prediction@,
                    input_labels@,
                    rows as int,
                    j as int,
                ),
            decreases cols - j,
        {
            let col = prediction.col(j);
            proof {
                assert(col@.map_values(|x: Rat| x@) =~= vcol(prediction@, j as int));
            }
            let (mi, _mv) = max(&col);
            let ghost am = argmax_spec(vcol(prediction@, j as int), rows as int);
            proof {
                assert(mi as int == am);
            }
            let mut ok: bool = true;
            let mut i: usize = 0;
            while i < rows
                invariant
                    prediction.wf(),
                    input_labels.wf(),
                    rows == prediction.rows,
                    cols == prediction.cols,
                    prediction.rows == input_labels.rows,
                    prediction.cols == input_labels.cols,
                    j < cols,
                    i <= rows,
                    mi as int == am,
                    ok <==> forall|ii: int|
                        0 <= ii < i ==> q_eq(
                            #[trigger] input_labels@[ii][j as int],
                            if ii == am {
                                q_one()
                            } else {
                                q_zero()
                            },
                        ),
                decreases rows - i,
            {
                let expected: Rat = if i == mi {
                    Rat::one()
                } else {
                    Rat::zero()
                };
                let t = input_labels.at(i, j);
                if !rat_value_eq(&t, &expected) {
                    ok = false;
                }
                i = i + 1;
            }
            if ok {
                count = count + 1;
            }
            j = j + 1;
        }
        let r = match Rat::new(count as i128, cols as i128) {
            Some(v) => v,
            None => Rat::zero(),
        };
        r
    }

    /// Runs the configured number of epochs of gradient descent on a two-layer
    /// network, mutating its parameters in place, and returns the per-epoch
    /// accuracies in order. On an error the run stops at once; updates already
    /// applied stay applied (there is no rollback).
    #[verifier::rlimit(100)]
    pub fn train(&mut self, input: &Matrix, input_labels: &Matrix) -> (r: Result<Vec<Rat>, Error>)
        requires
            old(self).wf(),
            old(self).mlp.layers@.len() == 2,
            input.wf(),
            input_labels.wf(),
            input_labels.rows == 1,
            input_labels.cols == input.cols,
            input.cols > 0,
        ensures
            final(self).wf(),
            final(self).alpha == old(self).alpha,
            final(self).epochs == old(self).epochs,
            final(self).mlp.layers@.len() == 2,
            forall|i: int|
                0 <= i < 2 ==> (#[trigger] final(self).mlp.layers@[i]).activation == old(
                    self,
                ).mlp.layers@[i].activation && final(self).mlp.layers@[i].weights.rows == old(
                    self,
                ).mlp.layers@[i].weights.rows && final(self).mlp.layers@[i].weights.cols == old(
                    self,
                ).mlp.layers@[i].weights.cols && final(self).mlp.layers@[i].bias.rows == old(
                    self,
                ).mlp.layers@[i].bias.rows && final(self).mlp.layers@[i].bias.cols == old(
                    self,
                ).mlp.layers@[i].bias.cols,
            r matches Ok(accs) ==> accs@.len() == old(self).epochs && (forall|k: int|
                0 <= k < accs@.len() ==> (#[trigger] accs@[k]).wf()) && try_train(
                old(self).mlp.layers@,
                layer_params(old(self).mlp.layers@),
                input@,
                input.rows as int,
                input.cols as int,
                input_labels@,
                old(self).alpha@,
                old(self).epochs as int,
            ) == Ok::<(Seq<(Seq<Seq<Q>>, Seq<Seq<Q>>)>, Seq<Q>), Error>(
                (layer_params(final(self).mlp.layers@), accs@.map_values(|x: Rat| x@)),
            ),
            r matches Err(e) ==> try_train(
                old(self).mlp.layers@,
                layer_params(old(self).mlp.layers@),
                input@,
                input.rows as int,
                input.cols as int,
                input_labels@,
                old(self).alpha@,
                old(self).epochs as int,
            ) == Err::<(Seq<(Seq<Seq<Q>>, Seq<Seq<Q>>)>, Seq<Q>), Error>(e),
    {
        let ghost olayers = old(self).mlp.layers@;
        let ghost oparams = layer_params(old(self).mlp.layers@);
        let mut accs: Vec<Rat> = Vec::new();
        let mut epoch: u32 = 0;
        proof {
            let empty: Seq<Q> = Seq::empty();
            assert(accs@.map_values(|x: Rat| x@) =~= empty);
        }
        while epoch < self.epochs
            invariant
                self.wf(),
                self.alpha == old(self).alpha,
                self.epochs == old(self).epochs,
                self.mlp.layers@.len() == 2,
                olayers == old(self).mlp.layers@,
                oparams == layer_params(old(self).mlp.layers@),
                olayers.len() == 2,
                forall|i: int|
                    0 <= i < 2 ==> (#[trigger] self.mlp.layers@[i]).activation
                        == olayers[i].activation && self.mlp.layers@[i].weights.rows
                        == olayers[i].weights.rows && self.mlp.layers@[i].weights.cols
                        == olayers[i].weights.cols && self.mlp.layers@[i].bias.rows
                        == olayers[i].bias.rows && self.mlp.layers@[i].bias.cols
                        == olayers[i].bias.cols,
                input.wf(),
                input_labels.wf(),
                input_labels.rows == 1,
                input_labels.cols == input.cols,
                input.cols > 0,
                epoch <= self.epochs,
                accs@.len() == epoch,
                forall|k: int| 0 <= k < accs@.len() ==> (#[trigger] accs@[k]).wf(),
                try_train(
                    olayers,
                    oparams,
                    input@,
                    input.rows as int,
                    input.cols as int,
                    input_labels@,
                    old(self).alpha@,
                    epoch as int,
                ) == Ok::<(Seq<(Seq<Seq<Q>>, Seq<Seq<Q>>)>, Seq<Q>), Error>(
                    (layer_params(self.mlp.layers@), accs@.map_values(|x: Rat| x@)),
                ),
            decreases self.epochs - epoch,
        {
            let ghost lpre = self.mlp.layers@;
            let ghost p_pre = layer_params(lpre);
            proof {
                lemma_breakdown_shape_congruent(
                    olayers,
                    lpre,
                    p_pre,
                    input@,
                    input.rows as int,
                    input.cols as int,
                    2,
                );
            }
            let synapses = match self.mlp.synapse_breakdown(input) {
                Ok(v) => v,
                Err(e) => {
                    proof {
                        lemma_train_err(
                            olayers,
                            oparams,
                            input@,
                            input.rows as int,
                            input.cols as int,
                            input_labels@,
                            old(self).alpha@,
                            epoch + 1,
                            old(self).epochs as int,
                        );
                    }
                    return Err(e);
                },
            };
            let classes = self.mlp.layers[1].weights.rows;
            let onehot = match one_hot(input_labels, classes) {
                Ok(v) => v,
                Err(e) => {
                    proof {
                        lemma_train_err(
                            olayers,
                            oparams,
                            input@,
                            input.rows as int,
                            input.cols as int,
                            input_labels@,
                            old(self).alpha@,
                            epoch + 1,
                            old(self).epochs as int,
                        );
                    }
                    return Err(e);
                },
            };
            let bp = match self.mlp.calculate_bp(&synapses, input, &onehot) {
                Ok(v) => v,
                Err(e) => {
                    proof {
                        lemma_train_err(
                            olayers,
                            oparams,
                            input@,
                            input.rows as int,
                            input.cols as int,
                            input_labels@,
                            old(self).alpha@,
                            epoch + 1,
                            old(self).epochs as int,
                        );
                    }
                    return Err(e);
                },
            };
            let sw0 = match mat_scale(&bp[0].0, &self.alpha) {
                Ok(v) => v,
                Err(e) => {
                    proof {
                        lemma_train_err(
                            olayers,
                            oparams,
                            input@,
                            input.rows as int,
                            input.cols as int,
                            input_labels@,
                            old(self).alpha@,
                            epoch + 1,
                            old(self).epochs as int,
                        );
                    }
                    return Err(e);
                },
            };
            let nw0 = match mat_sub(&self.mlp.layers[0].weights, &sw0) {
                Ok(v) => v,
                Err(e) => {
                    proof {
                        lemma_train_err(
                            olayers,
                            oparams,
                            input@,
                            input.rows as int,
                            input.cols as int,
                            input_labels@,
                            old(self).alpha@,
                            epoch + 1,
                            old(self).epochs as int,
                        );
                    }
                    return Err(e);
                },
            };
            let sb0 = match rat_mul(&self.alpha, &bp[0].1) {
                Some(v) => v,
                None => {
                    proof {
                        lemma_train_err(
                            olayers,
                            oparams,
                            input@,
                            input.rows as int,
                            input.cols as int,
                            input_labels@,
                            old(self).alpha@,
                            epoch + 1,
                            old(self).epochs as int,
                        );
                    }
                    return Err(Error::Overflow);
                },
            };
            let nb0 = match mat_sub_scalar(&self.mlp.layers[0].bias, &sb0) {
                Ok(v) => v,
                Err(e) => {
                    proof {
                        lemma_train_err(
                            olayers,
                            oparams,
                            input@,
                            input.rows as int,
                            input.cols as int,
                            input_labels@,
                            old(self).alpha@,
                            epoch + 1,
                            old(self).epochs as int,
                        );
                    }
                    return Err(e);
                },
            };
            self.mlp.layers[0].weights = nw0;
            self.mlp.layers[0].bias = nb0;
            let sw1 = match mat_scale(&bp[1].0, &self.alpha) {
                Ok(v) => v,
                Err(e) => {
                    proof {
                        lemma_train_err(
                            olayers,
                            oparams,
                            input@,
                            input.rows as int,
                            input.cols as int,
                            input_labels@,
                            old(self).alpha@,
                            epoch + 1,
                            old(self).epochs as int,
                        );
                    }
                    return Err(e);
                },
            };
            let nw1 = match mat_sub(&self.mlp.layers[1].weights, &sw1) {
                Ok(v) => v,
                Err(e) => {
                    proof {
                        lemma_train_err(
                            olayers,
                            oparams,
                            input@,
                            input.rows as int,
                            input.cols as int,
                            input_labels@,
                            old(self).alpha@,
                            epoch + 1,
                            old(self).epochs as int,
                        );
                    }
                    return Err(e);
                },
            };
            let sb1 = match rat_mul(&self.alpha, &bp[1].1) {
                Some(v) => v,
                None => {
                    proof {
                        lemma_train_err(
                            olayers,
                            oparams,
                            input@,
                            input.rows as int,
                            input.cols as int,
                            input_labels@,
                            old(self).alpha@,
                            epoch + 1,
                            old(self).epochs as int,
                        );
                    }
                    return Err(Error::Overflow);
                },
            };
            let nb1 = match mat_sub_scalar(&self.mlp.layers[1].bias, &sb1) {
                Ok(v) => v,
                Err(e) => {
                    proof {
                        lemma_train_err(
                            olayers,
                            oparams,
                            input@,
                            input.rows as int,
                            input.cols as int,
                            input_labels@,
                            old(self).alpha@,
                            epoch + 1,
                            old(self).epochs as int,
                        );
                    }
                    return Err(e);
                },
            };
            self.mlp.layers[1].weights = nw1;
            self.mlp.layers[1].bias = nb1;
            proof {
                assert(label_ok(input_labels@[0][0], classes as int));
                assert(input_labels.data@[0]@[0].wf());
                vstd::arithmetic::div_mod::lemma_div_pos_is_pos(
                    input_labels@[0][0].n,
                    input_labels@[0][0].d,
                );
            }
            let ghost pre_accs = accs@.map_values(|x: Rat| x@);
            let acc = Self::accuracy(&synapses[1].a, &onehot);
            accs.push(acc);
            proof {
                assert(layer_params(self.mlp.layers@) =~= seq![(nw0@, nb0@), (nw1@, nb1@)]);
                assert(try_epoch(
                    olayers,
                    p_pre,
                    input@,
                    input.rows as int,
                    input.cols as int,
                    input_labels@,
                    old(self).alpha@,
                ) == Ok::<(Seq<(Seq<Seq<Q>>, Seq<Seq<Q>>)>, Q), Error>(
                    (seq![(nw0@, nb0@), (nw1@, nb1@)], acc@),
                ));
                assert(accs@.map_values(|x: Rat| x@) =~= pre_accs.push(acc@));
            }
            epoch = epoch + 1;
        }
        Ok(accs)
    }
}

} // verus!

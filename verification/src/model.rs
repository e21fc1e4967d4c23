use vstd::prelude::*;
use crate::scalar::{Scalar, zero};
use crate::activation::{sigmoid_spec, sigmoid_derivative_spec};

verus! {

/// A matrix with `rows` rows of `cols` entries each.
pub open spec fn matrix_shaped<S>(m: Seq<Seq<S>>, rows: nat, cols: nat) -> bool {
    &&& m.len() == rows
    &&& forall|i: int| 0 <= i < rows ==> (#[trigger] m[i]).len() == cols
}

/// One matrix per transition between neighbouring layers; the matrix that
/// leaves a layer has one row for each of its nodes and one more for its bias
/// unit, and one column for each node of the layer it feeds.
pub open spec fn tensor_shaped<S>(t: Seq<Seq<Seq<S>>>, layers: Seq<Seq<S>>) -> bool {
    &&& t.len() + 1 == layers.len()
    &&& forall|l: int|
        0 <= l < t.len() ==> matrix_shaped(
            #[trigger] t[l],
            (layers[l].len() + 1) as nat,
            layers[l + 1].len(),
        )
}

/// What the input-side unit `i` of a transition emits: the output of node `i`
/// of the feeding layer, or the constant bias output for the row after the
/// last node.
pub open spec fn source_output<S>(prev: Seq<S>, bias: S, i: int) -> S {
    if i < prev.len() {
        prev[i]
    } else {
        bias
    }
}

/// The sum, over the first `n` input-side units taken in order, of weight
/// times emitted output, for the node `o` that the transition feeds.
pub open spec fn weighted_sum<S: Scalar>(
    w: Seq<Seq<S>>,
    prev: Seq<S>,
    bias: S,
    o: int,
    n: int,
) -> S
    decreases n,
{
    if n <= 0 {
        zero()
    } else {
        weighted_sum(w, prev, bias, o, n - 1).plus_spec(
            w[n - 1][o].times_spec(source_output(prev, bias, n - 1)),
        )
    }
}

/// The pre-activation values of a layer of `width` nodes fed through `w`.
pub open spec fn layer_values<S: Scalar>(w: Seq<Seq<S>>, prev: Seq<S>, bias: S, width: nat) -> Seq<
    S,
> {
    Seq::new(width, |o: int| weighted_sum(w, prev, bias, o, w.len() as int))
}

/// The activations of a layer with the given pre-activation values.
pub open spec fn layer_outputs<S: Scalar>(values: Seq<S>) -> Seq<S> {
    Seq::new(values.len(), |o: int| sigmoid_spec(values[o]))
}

/// What each node of a layer is off by: expected minus actual output.
pub open spec fn layer_errors<S: Scalar>(expected: Seq<S>, outputs: Seq<S>) -> Seq<S> {
    Seq::new(outputs.len(), |o: int| expected[o].minus_spec(outputs[o]))
}

/// The step that a node asks of its incoming weights: the slope of the
/// activation at its value, times its error, times the learning rate.
pub open spec fn node_gradient<S: Scalar>(value: S, error: S, learn_rate: S) -> S {
    sigmoid_derivative_spec(value).times_spec(error).times_spec(learn_rate)
}

/// The raw error that reaches input-side unit `i` through the transposed
/// matrix: the sum, over the first `n` fed nodes taken in order, of weight
/// times error.
pub open spec fn back_projection<S: Scalar>(w: Seq<Seq<S>>, errors: Seq<S>, i: int, n: int) -> S
    decreases n,
{
    if n <= 0 {
        zero()
    } else {
        back_projection(w, errors, i, n - 1).plus_spec(w[i][n - 1].times_spec(errors[n - 1]))
    }
}

/// The raw errors of a layer carried down to the `width` nodes that feed it.
pub open spec fn projected<S: Scalar>(w: Seq<Seq<S>>, errors: Seq<S>, width: nat) -> Seq<S> {
    Seq::new(width, |i: int| back_projection(w, errors, i, errors.len() as int))
}

/// Every entry of the tensor is zero.
pub open spec fn tensor_is_zero<S: Scalar>(t: Seq<Seq<Seq<S>>>) -> bool {
    forall|l: int, i: int, o: int|
        0 <= l < t.len() && 0 <= i < t[l].len() && 0 <= o < t[l][i].len() ==> #[trigger] t[l][i][o]
            == zero::<S>()
}

/// The tensor `t` with entry `[l][i][o]` replaced by `x`.
pub open spec fn tensor_update<S>(t: Seq<Seq<Seq<S>>>, l: int, i: int, o: int, x: S) -> Seq<
    Seq<Seq<S>>,
> {
    t.update(l, t[l].update(i, t[l][i].update(o, x)))
}

/// The mathematical content of a network.
pub struct NetModel<S> {
    /// `weights[l][i][o]` joins input-side unit `i` of layer `l` to node `o`
    /// of layer `l + 1`.
    pub weights: Seq<Seq<Seq<S>>>,
    /// The gradient gathered since the last commit, entry for entry.
    pub pending: Seq<Seq<Seq<S>>>,
    /// The pre-activation value of every node, layer by layer.
    pub values: Seq<Seq<S>>,
    /// The output of every node, layer by layer.
    pub outputs: Seq<Seq<S>>,
    /// What every bias unit emits.
    pub bias_output: S,
    /// The factor by which every gradient is scaled.
    pub learn_rate: S,
}

impl<S: Scalar> NetModel<S> {
    /// At least two layers, none empty, a value and an output for every node,
    /// and both tensors shaped after the layers.
    pub open spec fn wf(self) -> bool {
        &&& self.values.len() >= 2
        &&& self.outputs.len() == self.values.len()
        &&& forall|l: int|
            0 <= l < self.values.len() ==> (#[trigger] self.values[l]).len() > 0
        &&& forall|l: int|
            0 <= l < self.values.len() ==> (#[trigger] self.outputs[l]).len()
                == self.values[l].len()
        &&& tensor_shaped(self.weights, self.values)
        &&& tensor_shaped(self.pending, self.values)
    }

    /// In a well-formed network the matrix that leaves layer `t` has one row
    /// per node of that layer and one for its bias unit, and every row has an
    /// entry per node of layer `t + 1`.
    pub proof fn lemma_rows(self, t: int)
        requires
            self.wf(),
            0 <= t < self.values.len() - 1,
        ensures
            self.weights.len() == self.values.len() - 1,
            self.pending.len() == self.values.len() - 1,
            self.weights[t].len() == self.values[t].len() + 1,
            self.pending[t].len() == self.values[t].len() + 1,
            self.outputs[t].len() == self.values[t].len(),
            self.outputs[t + 1].len() == self.values[t + 1].len(),
            forall|i: int|
                0 <= i <= self.values[t].len() ==> (#[trigger] self.weights[t][i]).len()
                    == self.values[t + 1].len(),
            forall|i: int|
                0 <= i <= self.values[t].len() ==> (#[trigger] self.pending[t][i]).len()
                    == self.values[t + 1].len(),
    {
        assert(matrix_shaped(
            self.weights[t],
            (self.values[t].len() + 1) as nat,
            self.values[t + 1].len(),
        ));
        assert(matrix_shaped(
            self.pending[t],
            (self.values[t].len() + 1) as nat,
            self.values[t + 1].len(),
        ));
    }

    /// The outputs of layer `l` when the network is evaluated on `input`: the
    /// input itself for the first layer, which passes it through, and the
    /// activations of the weighted sums over the layer below for every other.
    pub open spec fn outputs_at(self, input: Seq<S>, l: int) -> Seq<S>
        decreases l, 1nat,
    {
        if l <= 0 {
            input
        } else {
            layer_outputs(self.values_at(input, l))
        }
    }

    /// The pre-activation values of layer `l` when the network is evaluated
    /// on `input`.
    pub open spec fn values_at(self, input: Seq<S>, l: int) -> Seq<S>
        decreases l, 0nat,
    {
        if l <= 0 {
            input
        } else {
            layer_values(
                self.weights[l - 1],
                self.outputs_at(input, l - 1),
                self.bias_output,
                self.values[l].len(),
            )
        }
    }

    /// The network after it was evaluated on `input`: every node holds its
    /// new value and output, and nothing else has changed.
    pub open spec fn forward(self, input: Seq<S>) -> NetModel<S> {
        NetModel {
            values: Seq::new(self.values.len(), |l: int| self.values_at(input, l)),
            outputs: Seq::new(self.values.len(), |l: int| self.outputs_at(input, l)),
            ..self
        }
    }

    /// What the network answers to `input`: the outputs of its last layer.
    pub open spec fn answer(self, input: Seq<S>) -> Seq<S> {
        self.outputs_at(input, self.values.len() - 1)
    }

    /// The errors of layer `l` that follow from the errors `top` of the last
    /// layer and the outputs that the nodes hold. Below the last layer, a
    /// node is expected to emit the raw error that reaches it from the layer
    /// above through the weights that join the two, and its error is that
    /// expectation minus its output.
    pub open spec fn errors_at(self, top: Seq<S>, l: int) -> Seq<S>
        decreases self.values.len() - l,
    {
        if l + 1 >= self.values.len() {
            top
        } else {
            layer_errors(
                projected(self.weights[l], self.errors_at(top, l + 1), self.values[l].len()),
                self.outputs[l],
            )
        }
    }

    /// What the nodes of layer `l`, below the last layer, are expected to
    /// emit: the errors of the layer above, carried down through the weights
    /// that join the two.
    pub open spec fn expected_at(self, top: Seq<S>, l: int) -> Seq<S> {
        projected(self.weights[l], self.errors_at(top, l + 1), self.values[l].len())
    }

    /// What one training sample adds to the pending entry `[t][i][o]` when
    /// the nodes of layer `t + 1` are off by `errors`: the gradient of node
    /// `o` of that layer, times what input-side unit `i` of layer `t` emitted.
    pub open spec fn step(self, errors: Seq<S>, t: int, i: int, o: int) -> S {
        node_gradient(self.values[t + 1][o], errors[o], self.learn_rate).times_spec(
            source_output(self.outputs[t], self.bias_output, i),
        )
    }

    /// The weight `[t][i][o]` after one training sample: unchanged without
    /// `commit`; with it, the weight plus what the pending entry has come to.
    pub open spec fn trained_weight(self, errors: Seq<S>, t: int, i: int, o: int, commit: bool) -> S {
        if commit {
            self.weights[t][i][o].plus_spec(
                self.pending[t][i][o].plus_spec(self.step(errors, t, i, o)),
            )
        } else {
            self.weights[t][i][o]
        }
    }

    /// The pending entry `[t][i][o]` after one training sample: the entry
    /// plus the sample's share without `commit`, zero with it.
    pub open spec fn trained_pending(self, errors: Seq<S>, t: int, i: int, o: int, commit: bool) -> S {
        if commit {
            zero()
        } else {
            self.pending[t][i][o].plus_spec(self.step(errors, t, i, o))
        }
    }

    /// The weights that leave layer `t` after one training sample.
    pub open spec fn trained_weights(self, errors: Seq<S>, t: int, commit: bool) -> Seq<Seq<S>> {
        Seq::new(
            self.weights[t].len(),
            |i: int|
                Seq::new(
                    self.weights[t][i].len(),
                    |o: int| self.trained_weight(errors, t, i, o, commit),
                ),
        )
    }

    /// The pending gradient of the transition that leaves layer `t` after one
    /// training sample.
    pub open spec fn trained_pendings(self, errors: Seq<S>, t: int, commit: bool) -> Seq<Seq<S>> {
        Seq::new(
            self.pending[t].len(),
            |i: int|
                Seq::new(
                    self.pending[t][i].len(),
                    |o: int| self.trained_pending(errors, t, i, o, commit),
                ),
        )
    }

    /// The network after the transition that leaves layer `t` was trained
    /// against the errors of layer `t + 1`.
    pub open spec fn train_transition(self, t: int, errors: Seq<S>, commit: bool) -> NetModel<S> {
        NetModel {
            weights: self.weights.update(t, self.trained_weights(errors, t, commit)),
            pending: self.pending.update(t, self.trained_pendings(errors, t, commit)),
            ..self
        }
    }

    /// What one training sample adds to the pending entry `[t][i][o]` when
    /// the last layer is off by `top`.
    pub open spec fn delta(self, top: Seq<S>, t: int, i: int, o: int) -> S {
        self.step(self.errors_at(top, t + 1), t, i, o)
    }

    /// The network after one training call. The network is first evaluated on
    /// `input`; the errors against `target` then give every pending entry its
    /// share. Without `commit` the weights stay as they were. With it, every
    /// weight takes up its pending entry, which goes back to zero.
    pub open spec fn train(self, input: Seq<S>, target: Seq<S>, commit: bool) -> NetModel<S> {
        let seen = self.forward(input);
        let top = layer_errors(target, seen.outputs.last());
        NetModel {
            weights: Seq::new(
                seen.weights.len(),
                |t: int| seen.trained_weights(seen.errors_at(top, t + 1), t, commit),
            ),
            pending: Seq::new(
                seen.pending.len(),
                |t: int| seen.trained_pendings(seen.errors_at(top, t + 1), t, commit),
            ),
            ..seen
        }
    }

    /// `other` has the layers of `self`, node for node.
    pub open spec fn same_widths(self, other: NetModel<S>) -> bool {
        &&& other.values.len() == self.values.len()
        &&& forall|l: int|
            0 <= l < self.values.len() ==> (#[trigger] other.values[l]).len()
                == self.values[l].len()
    }

    /// Evaluating a well-formed network on an input of the width of its first
    /// layer leaves it well-formed, with the layers it had, and answers with
    /// one output per node of its last layer.
    pub proof fn lemma_forward_shape(self, input: Seq<S>)
        requires
            self.wf(),
            input.len() == self.values[0].len(),
        ensures
            self.forward(input).wf(),
            self.same_widths(self.forward(input)),
            self.answer(input) == self.forward(input).outputs.last(),
            self.answer(input).len() == self.values.last().len(),
    {
        let seen = self.forward(input);
        assert forall|l: int| 0 <= l < self.values.len() implies (#[trigger] seen.values[l]).len()
            == self.values[l].len() && (#[trigger] seen.outputs[l]).len() == self.values[l].len() by {
            if l > 0 {
                assert(seen.values[l] == self.values_at(input, l));
            }
        }
        assert forall|l: int| 0 <= l < seen.weights.len() implies matrix_shaped(
            #[trigger] seen.weights[l],
            (seen.values[l].len() + 1) as nat,
            seen.values[l + 1].len(),
        ) by {
            self.lemma_rows(l);
        }
        assert forall|l: int| 0 <= l < seen.pending.len() implies matrix_shaped(
            #[trigger] seen.pending[l],
            (seen.values[l].len() + 1) as nat,
            seen.values[l + 1].len(),
        ) by {
            self.lemma_rows(l);
        }
    }

    /// Training a well-formed network on a sample of fitting widths leaves it
    /// well-formed, with the layers it had.
    pub proof fn lemma_train_shape(self, input: Seq<S>, target: Seq<S>, commit: bool)
        requires
            self.wf(),
            input.len() == self.values[0].len(),
        ensures
            self.train(input, target, commit).wf(),
            self.same_widths(self.train(input, target, commit)),
    {
        self.lemma_forward_shape(input);
        let seen = self.forward(input);
        let done = self.train(input, target, commit);
        assert forall|l: int| 0 <= l < done.weights.len() implies matrix_shaped(
            #[trigger] done.weights[l],
            (done.values[l].len() + 1) as nat,
            done.values[l + 1].len(),
        ) by {
            seen.lemma_rows(l);
        }
        assert forall|l: int| 0 <= l < done.pending.len() implies matrix_shaped(
            #[trigger] done.pending[l],
            (done.values[l].len() + 1) as nat,
            done.values[l + 1].len(),
        ) by {
            seen.lemma_rows(l);
        }
    }

    /// The signal has one entry per node of the first layer.
    pub proof fn lemma_signal_len(self, top: Seq<S>)
        requires
            self.wf(),
        ensures
            self.signal(top).len() == self.values[0].len(),
    {
    }

    /// The signal that a critic hands to whatever produced its input: the
    /// errors `top` of its last layer carried down, layer by layer, to its
    /// input layer. No activation slope and no learning rate enter it.
    pub open spec fn signal(self, top: Seq<S>) -> Seq<S> {
        self.expected_at(top, 0)
    }
}

} // verus!

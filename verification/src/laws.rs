use vstd::prelude::*;
use crate::scalar::{Scalar, zero};
use crate::model::{NetModel, layer_errors};
use crate::gan::GanModel;

verus! {

/// Two networks compute the same function: they have the same layers, the
/// same weights, the same bias output and the same learning rate. What their
/// nodes hold and what is pending may differ.
pub open spec fn same_function<S: Scalar>(a: NetModel<S>, b: NetModel<S>) -> bool {
    &&& a.same_widths(b)
    &&& a.weights == b.weights
    &&& a.bias_output == b.bias_output
    &&& a.learn_rate == b.learn_rate
}

/// What a sample adds to the pending entry `[t][i][o]` of a network.
pub open spec fn share<S: Scalar>(
    net: NetModel<S>,
    input: Seq<S>,
    target: Seq<S>,
    t: int,
    i: int,
    o: int,
) -> S {
    let seen = net.forward(input);
    seen.delta(layer_errors(target, seen.outputs.last()), t, i, o)
}

/// The network after the first `n` samples were trained on without commit.
pub open spec fn accumulated<S: Scalar>(
    net: NetModel<S>,
    inputs: Seq<Seq<S>>,
    targets: Seq<Seq<S>>,
    n: nat,
) -> NetModel<S>
    decreases n,
{
    if n == 0 {
        net
    } else {
        accumulated(net, inputs, targets, (n - 1) as nat).train(
            inputs[n - 1],
            targets[n - 1],
            false,
        )
    }
}

/// The pending entry `[t][i][o]` plus the shares of the first `n` samples,
/// added one after the other.
pub open spec fn gathered<S: Scalar>(
    net: NetModel<S>,
    inputs: Seq<Seq<S>>,
    targets: Seq<Seq<S>>,
    n: nat,
    t: int,
    i: int,
    o: int,
) -> S
    decreases n,
{
    if n == 0 {
        net.pending[t][i][o]
    } else {
        gathered(net, inputs, targets, (n - 1) as nat, t, i, o).plus_spec(
            share(net, inputs[n - 1], targets[n - 1], t, i, o),
        )
    }
}

/// Evaluation is determined by the weights: two networks that compute the
/// same function hold the same values and outputs in every layer after they
/// were evaluated on the same input.
pub proof fn law_forward_determined<S: Scalar>(a: NetModel<S>, b: NetModel<S>, input: Seq<S>, l: int)
    requires
        same_function(a, b),
        l < a.values.len(),
    ensures
        a.values_at(input, l) == b.values_at(input, l),
        a.outputs_at(input, l) == b.outputs_at(input, l),
    decreases l,
{
    if l > 0 {
        law_forward_determined(a, b, input, l - 1);
    }
}

/// Two networks that compute the same function give the same answer to the
/// same input, and their nodes hold the same state afterwards.
pub proof fn law_answer_determined<S: Scalar>(a: NetModel<S>, b: NetModel<S>, input: Seq<S>)
    requires
        same_function(a, b),
        a.values.len() > 0,
    ensures
        a.answer(input) == b.answer(input),
        a.forward(input).values == b.forward(input).values,
        a.forward(input).outputs == b.forward(input).outputs,
{
    assert forall|l: int| 0 <= l < a.values.len() implies a.values_at(input, l) == b.values_at(
        input,
        l,
    ) && a.outputs_at(input, l) == b.outputs_at(input, l) by {
        law_forward_determined(a, b, input, l);
    }
    assert(a.forward(input).values =~= b.forward(input).values);
    assert(a.forward(input).outputs =~= b.forward(input).outputs);
}

/// Evaluating a network twice on the same input gives the same answer, and
/// leaves the network as the first evaluation left it.
pub proof fn law_forward_repeats<S: Scalar>(net: NetModel<S>, input: Seq<S>)
    requires
        net.wf(),
        input.len() == net.values[0].len(),
    ensures
        net.forward(input).answer(input) == net.answer(input),
        net.forward(input).forward(input) == net.forward(input),
{
    let once = net.forward(input);
    let twice = once.forward(input);
    net.lemma_forward_shape(input);
    assert forall|l: int| 0 <= l < net.values.len() implies once.values_at(input, l)
        == net.values_at(input, l) && once.outputs_at(input, l) == net.outputs_at(input, l) by {
        law_forward_determined(net, once, input, l);
    }
    assert(twice.values =~= once.values);
    assert(twice.outputs =~= once.outputs);
}

/// The errors of every layer are determined by the weights and by what the
/// nodes emitted.
proof fn lemma_errors_determined<S: Scalar>(a: NetModel<S>, b: NetModel<S>, top: Seq<S>, l: int)
    requires
        same_function(a, b),
        a.outputs == b.outputs,
        0 <= l,
    ensures
        a.errors_at(top, l) == b.errors_at(top, l),
    decreases a.values.len() - l,
{
    if l + 1 < a.values.len() {
        lemma_errors_determined(a, b, top, l + 1);
    }
}

/// What a sample adds to a pending entry is determined by the weights: it is
/// the same for two networks that compute the same function.
pub proof fn law_share_determined<S: Scalar>(
    a: NetModel<S>,
    b: NetModel<S>,
    input: Seq<S>,
    target: Seq<S>,
    t: int,
    i: int,
    o: int,
)
    requires
        same_function(a, b),
        0 <= t < a.values.len() - 1,
    ensures
        share(a, input, target, t, i, o) == share(b, input, target, t, i, o),
{
    let sa = a.forward(input);
    let sb = b.forward(input);
    assert forall|l: int| 0 <= l < a.values.len() implies a.values_at(input, l) == b.values_at(
        input,
        l,
    ) && a.outputs_at(input, l) == b.outputs_at(input, l) by {
        law_forward_determined(a, b, input, l);
    }
    assert(sa.values =~= sb.values);
    assert(sa.outputs =~= sb.outputs);
    let top = layer_errors(target, sa.outputs.last());
    lemma_errors_determined(sa, sb, top, t + 1);
}

/// Training without commit leaves the weights alone, however often it is
/// repeated, and every pending entry gathers the shares of the samples one
/// after the other.
pub proof fn law_accumulate<S: Scalar>(
    net: NetModel<S>,
    inputs: Seq<Seq<S>>,
    targets: Seq<Seq<S>>,
    n: nat,
)
    requires
        net.wf(),
        n <= inputs.len(),
        n <= targets.len(),
        forall|k: int| 0 <= k < n ==> (#[trigger] inputs[k]).len() == net.values[0].len(),
    ensures
        accumulated(net, inputs, targets, n).wf(),
        same_function(net, accumulated(net, inputs, targets, n)),
        forall|t: int, i: int, o: int|
            0 <= t < net.pending.len() && 0 <= i < net.pending[t].len() && 0 <= o
                < net.pending[t][i].len() ==> #[trigger] accumulated(
                net,
                inputs,
                targets,
                n,
            ).pending[t][i][o] == gathered(net, inputs, targets, n, t, i, o),
    decreases n,
{
    if n > 0 {
        let before = accumulated(net, inputs, targets, (n - 1) as nat);
        let after = accumulated(net, inputs, targets, n);
        law_accumulate(net, inputs, targets, (n - 1) as nat);
        before.lemma_train_shape(inputs[n - 1], targets[n - 1], false);
        before.lemma_forward_shape(inputs[n - 1]);
        let seen = before.forward(inputs[n - 1]);
        assert(after.weights =~~= net.weights) by {
            assert forall|t: int| 0 <= t < net.weights.len() implies #[trigger] after.weights[t]
                =~~= net.weights[t] by {
                seen.lemma_rows(t);
                net.lemma_rows(t);
            }
        }
        assert forall|t: int, i: int, o: int|
            0 <= t < net.pending.len() && 0 <= i < net.pending[t].len() && 0 <= o
                < net.pending[t][i].len() implies #[trigger] after.pending[t][i][o] == gathered(
            net,
            inputs,
            targets,
            n,
            t,
            i,
            o,
        ) by {
            net.lemma_rows(t);
            seen.lemma_rows(t);
            law_share_determined(net, before, inputs[n - 1], targets[n - 1], t, i, o);
        }
    }
}

/// Accumulate, then commit. After `n` samples were trained on without
/// commit, the weights are what they were. One more sample, trained on with
/// commit, then moves every weight by what was pending at the start plus the
/// shares of all `n + 1` samples, added in the order of the calls, and leaves
/// every pending entry at zero.
pub proof fn law_accumulate_then_commit<S: Scalar>(
    net: NetModel<S>,
    inputs: Seq<Seq<S>>,
    targets: Seq<Seq<S>>,
    n: nat,
    input: Seq<S>,
    target: Seq<S>,
)
    requires
        net.wf(),
        n <= inputs.len(),
        n <= targets.len(),
        forall|k: int| 0 <= k < n ==> (#[trigger] inputs[k]).len() == net.values[0].len(),
        input.len() == net.values[0].len(),
    ensures
        accumulated(net, inputs, targets, n).weights == net.weights,
        forall|t: int, i: int, o: int|
            0 <= t < net.weights.len() && 0 <= i < net.weights[t].len() && 0 <= o
                < net.weights[t][i].len() ==> #[trigger] accumulated(net, inputs, targets, n).train(
                input,
                target,
                true,
            ).weights[t][i][o] == net.weights[t][i][o].plus_spec(
                gathered(net, inputs, targets, n, t, i, o).plus_spec(
                    share(net, input, target, t, i, o),
                ),
            ),
        forall|t: int, i: int, o: int|
            0 <= t < net.pending.len() && 0 <= i < net.pending[t].len() && 0 <= o
                < net.pending[t][i].len() ==> #[trigger] accumulated(net, inputs, targets, n).train(
                input,
                target,
                true,
            ).pending[t][i][o] == zero::<S>(),
{
    let before = accumulated(net, inputs, targets, n);
    let after = before.train(input, target, true);
    law_accumulate(net, inputs, targets, n);
    before.lemma_forward_shape(input);
    let seen = before.forward(input);
    assert forall|t: int, i: int, o: int|
        0 <= t < net.weights.len() && 0 <= i < net.weights[t].len() && 0 <= o
            < net.weights[t][i].len() implies #[trigger] after.weights[t][i][o]
        == net.weights[t][i][o].plus_spec(
        gathered(net, inputs, targets, n, t, i, o).plus_spec(share(net, input, target, t, i, o)),
    ) by {
        net.lemma_rows(t);
        seen.lemma_rows(t);
        before.lemma_rows(t);
        law_share_determined(net, before, input, target, t, i, o);
        assert(before.pending[t][i][o] == gathered(net, inputs, targets, n, t, i, o));
    }
    assert forall|t: int, i: int, o: int|
        0 <= t < net.pending.len() && 0 <= i < net.pending[t].len() && 0 <= o
            < net.pending[t][i].len() implies #[trigger] after.pending[t][i][o] == zero::<S>() by {
        net.lemma_rows(t);
        seen.lemma_rows(t);
        before.lemma_rows(t);
    }
}

/// Training the generator never writes the discriminator: after any number
/// of rounds on any noise, the discriminator's weights and pending gradient
/// are what they were.
pub proof fn law_generator_training_spares_discriminator<S: Scalar>(
    gan: GanModel<S>,
    noises: Seq<Seq<S>>,
    k: nat,
)
    ensures
        gan.after_generator_rounds(noises, k).discriminator.weights == gan.discriminator.weights,
        gan.after_generator_rounds(noises, k).discriminator.pending == gan.discriminator.pending,
    decreases k,
{
    if k > 0 {
        law_generator_training_spares_discriminator(gan, noises, (k - 1) as nat);
    }
}

/// Training the discriminator never writes the generator: after any number
/// of rounds on any noise and any samples, the generator's weights and
/// pending gradient are what they were.
pub proof fn law_discriminator_training_spares_generator<S: Scalar>(
    gan: GanModel<S>,
    noises: Seq<Seq<S>>,
    samples: Seq<Seq<S>>,
    k: nat,
)
    ensures
        gan.after_discriminator_rounds(noises, samples, k).generator.weights
            == gan.generator.weights,
        gan.after_discriminator_rounds(noises, samples, k).generator.pending
            == gan.generator.pending,
    decreases k,
{
    if k > 0 {
        law_discriminator_training_spares_generator(gan, noises, samples, (k - 1) as nat);
    }
}

} // verus!

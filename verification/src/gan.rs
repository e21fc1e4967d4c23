use vstd::prelude::*;
use crate::scalar::{Scalar, zero, one};
use crate::error::BuildError;
use crate::noise::{NoiseSource, is_noise};
use crate::model::{NetModel, layer_errors, back_projection, projected};
use crate::dnn::{DNN, valid_topology, is_valid_topology, freshly_built, run_net, train_net};
use crate::laws::{same_function, law_answer_determined};

verus! {

/// Two networks set against each other: a generator that turns noise into
/// samples, and a discriminator that tells real samples from generated ones.
pub struct GAN<S> {
    pub discriminator: DNN<S>,
    pub generator: DNN<S>,
}

/// The mathematical content of the pair.
pub struct GanModel<S> {
    pub discriminator: NetModel<S>,
    pub generator: NetModel<S>,
}

/// The topologies fit each other: the discriminator ends in a single node,
/// and the generator ends in as many nodes as the discriminator starts with.
pub open spec fn shapes_fit(discriminator: Seq<usize>, generator: Seq<usize>) -> bool {
    &&& discriminator.len() > 0
    &&& generator.len() > 0
    &&& discriminator.last() == 1
    &&& generator.last() == discriminator[0]
}

impl<S: Scalar> GanModel<S> {
    /// Both networks are well-formed and fit each other.
    pub open spec fn wf(self) -> bool {
        &&& self.discriminator.wf()
        &&& self.generator.wf()
        &&& self.discriminator.values.last().len() == 1
        &&& self.generator.values.last().len() == self.discriminator.values[0].len()
    }

    /// `other` has the layers of `self` in both networks.
    pub open spec fn same_widths(self, other: GanModel<S>) -> bool {
        &&& self.discriminator.same_widths(other.discriminator)
        &&& self.generator.same_widths(other.generator)
    }

    /// The pair after one round of discriminator training on a real sample.
    /// The generator turns `noise` into a fake; the discriminator is trained
    /// towards zero on the fake, without commit, and then towards one on the
    /// real sample.
    pub open spec fn discriminator_round(self, noise: Seq<S>, sample: Seq<S>, commit: bool) -> GanModel<
        S,
    > {
        let fake = self.generator.answer(noise);
        GanModel {
            discriminator: self.discriminator.train(fake, seq![zero::<S>()], false).train(
                sample,
                seq![one::<S>()],
                commit,
            ),
            generator: self.generator.forward(noise),
        }
    }

    /// What the generator is trained towards on `noise`: the error of the
    /// discriminator's verdict on the fake against one, carried down to the
    /// discriminator's input.
    pub open spec fn generator_signal(self, noise: Seq<S>) -> Seq<S> {
        let fake = self.generator.answer(noise);
        self.discriminator.forward(fake).signal(
            layer_errors(seq![one::<S>()], self.discriminator.answer(fake)),
        )
    }

    /// The pair after one round of generator training. The discriminator
    /// judges the fake made from `noise` and keeps the node state of that
    /// evaluation, nothing else of it changes; the generator is trained on
    /// `noise` towards the signal.
    pub open spec fn generator_round(self, noise: Seq<S>, commit: bool) -> GanModel<S> {
        let fake = self.generator.answer(noise);
        GanModel {
            discriminator: self.discriminator.forward(fake),
            generator: self.generator.forward(noise).train(
                noise,
                self.generator_signal(noise),
                commit,
            ),
        }
    }

    /// The pair after the first `k` rounds of discriminator training, round
    /// `j` on `noises[j]` and `samples[j]`. The discriminator commits in every
    /// fifth round.
    pub open spec fn after_discriminator_rounds(
        self,
        noises: Seq<Seq<S>>,
        samples: Seq<Seq<S>>,
        k: nat,
    ) -> GanModel<S>
        decreases k,
    {
        if k == 0 {
            self
        } else {
            self.after_discriminator_rounds(noises, samples, (k - 1) as nat).discriminator_round(
                noises[k - 1],
                samples[k - 1],
                (k - 1) % 5 == 4,
            )
        }
    }

    /// The pair after the first `k` rounds of generator training, round `j`
    /// on `noises[j]`. The generator commits in every tenth round.
    pub open spec fn after_generator_rounds(self, noises: Seq<Seq<S>>, k: nat) -> GanModel<S>
        decreases k,
    {
        if k == 0 {
            self
        } else {
            self.after_generator_rounds(noises, (k - 1) as nat).generator_round(
                noises[k - 1],
                (k - 1) % 10 == 9,
            )
        }
    }

    /// A round of discriminator training on samples of fitting widths leaves
    /// the pair well-formed, with the layers it had.
    pub proof fn lemma_discriminator_round_shape(self, noise: Seq<S>, sample: Seq<S>, commit: bool)
        requires
            self.wf(),
            noise.len() == self.generator.values[0].len(),
            sample.len() == self.discriminator.values[0].len(),
        ensures
            self.discriminator_round(noise, sample, commit).wf(),
            self.same_widths(self.discriminator_round(noise, sample, commit)),
    {
        let fake = self.generator.answer(noise);
        self.generator.lemma_forward_shape(noise);
        self.discriminator.lemma_train_shape(fake, seq![zero::<S>()], false);
        let half = self.discriminator.train(fake, seq![zero::<S>()], false);
        half.lemma_train_shape(sample, seq![one::<S>()], commit);
    }

    /// A round of generator training on noise of fitting width leaves the
    /// pair well-formed, with the layers it had.
    pub proof fn lemma_generator_round_shape(self, noise: Seq<S>, commit: bool)
        requires
            self.wf(),
            noise.len() == self.generator.values[0].len(),
        ensures
            self.generator_round(noise, commit).wf(),
            self.same_widths(self.generator_round(noise, commit)),
    {
        let fake = self.generator.answer(noise);
        self.generator.lemma_forward_shape(noise);
        self.discriminator.lemma_forward_shape(fake);
        self.generator.forward(noise).lemma_train_shape(
            noise,
            self.generator_signal(noise),
            commit,
        );
    }
}

impl<S: Scalar> View for GAN<S> {
    type V = GanModel<S>;

    open spec fn view(&self) -> GanModel<S> {
        GanModel { discriminator: self.discriminator@, generator: self.generator@ }
    }
}

impl<S: Scalar> GAN<S> {
    /// Both networks are well-formed and fit each other.
    pub open spec fn wf(&self) -> bool {
        self@.wf()
    }
}

/// `count` noise vectors, each for a layer of `width` nodes.
pub open spec fn are_noises<S: Scalar>(noises: Seq<Seq<S>>, count: nat, width: nat) -> bool {
    &&& noises.len() == count
    &&& forall|k: int| 0 <= k < noises.len() ==> is_noise(#[trigger] noises[k], width)
}

/// The samples, each as a sequence of its entries.
pub open spec fn samples_view<S>(samples: Vec<Vec<S>>) -> Seq<Seq<S>> {
    Seq::new(samples@.len(), |k: int| samples@[k]@)
}

/// Builds a discriminator and a generator that fit each other.
///
/// The discriminator is built first, then the generator, each as a network
/// of its own is built; the weights of both are drawn from `source`.
pub fn new<S: Scalar, N: NoiseSource<S>>(
    discriminator_nodes: &[usize],
    generator_nodes: &[usize],
    source: &mut N,
) -> (made: Result<GAN<S>, BuildError>)
    ensures
        made is Ok <==> valid_topology(discriminator_nodes@) && valid_topology(generator_nodes@)
            && shapes_fit(discriminator_nodes@, generator_nodes@),
        made == Err::<GAN<S>, BuildError>(BuildError::DegenerateTopology) <==> !(valid_topology(
            discriminator_nodes@,
        ) && valid_topology(generator_nodes@)),
        made == Err::<GAN<S>, BuildError>(BuildError::ShapeMismatch) <==> valid_topology(
            discriminator_nodes@,
        ) && valid_topology(generator_nodes@) && !shapes_fit(
            discriminator_nodes@,
            generator_nodes@,
        ),
        made matches Ok(gan) ==> gan.wf() && freshly_built(
            gan.discriminator@,
            discriminator_nodes@,
        ) && freshly_built(gan.generator@, generator_nodes@),
{
    if !is_valid_topology(discriminator_nodes) || !is_valid_topology(generator_nodes) {
        return Err(BuildError::DegenerateTopology);
    }
    if discriminator_nodes[discriminator_nodes.len() - 1] != 1 {
        return Err(BuildError::ShapeMismatch);
    }
    if discriminator_nodes[0] != generator_nodes[generator_nodes.len() - 1] {
        return Err(BuildError::ShapeMismatch);
    }
    let discriminator = match crate::dnn::new(discriminator_nodes, source) {
        Ok(net) => net,
        Err(error) => {
            return Err(error);
        },
    };
    let generator = match crate::dnn::new(generator_nodes, source) {
        Ok(net) => net,
        Err(error) => {
            return Err(error);
        },
    };
    Ok(GAN { discriminator, generator })
}

/// `noise_count` draws from `source`.
pub fn gen_noise<S: Scalar, N: NoiseSource<S>>(noise_count: u32, source: &mut N) -> (ret: Vec<S>)
    ensures
        is_noise(ret@, noise_count as nat),
{
    noise_of_width(noise_count as usize, source)
}

/// One draw from `source` for each of `width` nodes.
fn noise_of_width<S: Scalar, N: NoiseSource<S>>(width: usize, source: &mut N) -> (ret: Vec<S>)
    ensures
        is_noise(ret@, width as nat),
{
    let mut ret: Vec<S> = Vec::new();
    let mut i: usize = 0;
    while i < width
        invariant
            i <= width,
            is_noise(ret@, i as nat),
        decreases width - i,
    {
        ret.push(source.draw());
        i += 1;
    }
    ret
}

/// What the generator makes of `noise`.
pub fn generate<S: Scalar>(gen: &mut DNN<S>, noise: &Vec<S>) -> (ret: Vec<S>)
    requires
        old(gen).wf(),
        noise@.len() == old(gen)@.values[0].len(),
    ensures
        final(gen).wf(),
        final(gen)@ == old(gen)@.forward(noise@),
        ret@ == old(gen)@.answer(noise@),
{
    run_net(gen, noise.as_slice())
}

/// A vector that holds `x` and nothing else.
fn single<S: Scalar>(x: S) -> (v: Vec<S>)
    ensures
        v@ == seq![x],
{
    let mut v: Vec<S> = Vec::new();
    v.push(x);
    assert(v@ =~= seq![x]);
    v
}

/// One round of discriminator training: on a fake made from `noise`, towards
/// zero and without commit, then on `sample`, towards one.
pub fn discriminator_round<S: Scalar>(gan: &mut GAN<S>, noise: &Vec<S>, sample: &Vec<S>, commit: bool)
    requires
        old(gan).wf(),
        noise@.len() == old(gan)@.generator.values[0].len(),
        sample@.len() == old(gan)@.discriminator.values[0].len(),
    ensures
        final(gan).wf(),
        old(gan)@.same_widths(final(gan)@),
        final(gan)@ == old(gan)@.discriminator_round(noise@, sample@, commit),
{
    proof {
        old(gan)@.lemma_discriminator_round_shape(noise@, sample@, commit);
        old(gan)@.generator.lemma_forward_shape(noise@);
        old(gan)@.discriminator.lemma_train_shape(
            old(gan)@.generator.answer(noise@),
            seq![zero::<S>()],
            false,
        );
    }
    let fake = generate(&mut gan.generator, noise);
    let reject = single(S::from_int(0));
    let accept = single(S::from_int(1));
    train_net(&mut gan.discriminator, fake.as_slice(), reject.as_slice(), false);
    train_net(&mut gan.discriminator, sample.as_slice(), accept.as_slice(), commit);
}

/// Trains the discriminator on every real sample in turn.
///
/// For each sample, noise of the width of the generator's first layer is
/// drawn from `source`, and one round of discriminator training is run on it
/// and on the sample. The discriminator commits in every fifth round.
pub fn train_discriminator<S: Scalar, N: NoiseSource<S>>(
    gan: &mut GAN<S>,
    inputs: &Vec<Vec<S>>,
    source: &mut N,
)
    requires
        old(gan).wf(),
        forall|k: int|
            0 <= k < inputs@.len() ==> (#[trigger] inputs@[k])@.len()
                == old(gan)@.discriminator.values[0].len(),
    ensures
        final(gan).wf(),
        old(gan)@.same_widths(final(gan)@),
        exists|noises: Seq<Seq<S>>|
            are_noises(noises, inputs@.len(), old(gan)@.generator.values[0].len())
                && #[trigger] old(gan)@.after_discriminator_rounds(
                noises,
                samples_view(*inputs),
                inputs@.len(),
            ) == final(gan)@,
{
    let ghost before = gan@;
    let ghost samples = samples_view(*inputs);
    let ghost mut noises: Seq<Seq<S>> = Seq::empty();
    let mut image: usize = 0;
    while image < inputs.len()
        invariant
            gan.wf(),
            before.same_widths(gan@),
            before.wf(),
            samples == samples_view(*inputs),
            image <= inputs@.len(),
            are_noises(noises, image as nat, before.generator.values[0].len()),
            forall|k: int|
                0 <= k < inputs@.len() ==> (#[trigger] inputs@[k])@.len()
                    == before.discriminator.values[0].len(),
            gan@ == before.after_discriminator_rounds(noises, samples, image as nat),
        decreases inputs@.len() - image,
    {
        let width = gan.generator.node_vals[0].len();
        let noise = noise_of_width(width, source);
        let ghost earlier = noises;
        proof {
            noises = noises.push(noise@);
            lemma_discriminator_rounds_prefix(before, earlier, noises, samples, image as nat);
            assert(gan@.generator.values[0].len() == before.generator.values[0].len());
            assert forall|k: int| 0 <= k < noises.len() implies is_noise(
                #[trigger] noises[k],
                before.generator.values[0].len(),
            ) by {
                if k < earlier.len() {
                    assert(noises[k] == earlier[k]);
                }
            }
        }
        discriminator_round(gan, &noise, &inputs[image], image % 5 == 4);
        image += 1;
    }
    proof {
        assert(before.after_discriminator_rounds(noises, samples, inputs@.len()) == gan@);
    }
}

/// The first `k` rounds depend on the first `k` noises only.
proof fn lemma_discriminator_rounds_prefix<S: Scalar>(
    start: GanModel<S>,
    a: Seq<Seq<S>>,
    b: Seq<Seq<S>>,
    samples: Seq<Seq<S>>,
    k: nat,
)
    requires
        k <= a.len() <= b.len(),
        forall|j: int| 0 <= j < k ==> a[j] == b[j],
    ensures
        start.after_discriminator_rounds(a, samples, k) == start.after_discriminator_rounds(
            b,
            samples,
            k,
        ),
    decreases k,
{
    if k > 0 {
        lemma_discriminator_rounds_prefix(start, a, b, samples, (k - 1) as nat);
    }
}

/// The first `k` rounds depend on the first `k` noises only.
proof fn lemma_generator_rounds_prefix<S: Scalar>(
    start: GanModel<S>,
    a: Seq<Seq<S>>,
    b: Seq<Seq<S>>,
    k: nat,
)
    requires
        k <= a.len() <= b.len(),
        forall|j: int| 0 <= j < k ==> a[j] == b[j],
    ensures
        start.after_generator_rounds(a, k) == start.after_generator_rounds(b, k),
    decreases k,
{
    if k > 0 {
        lemma_generator_rounds_prefix(start, a, b, (k - 1) as nat);
    }
}

/// The error of a critic's verdict, carried down to its input.
///
/// `output` is what the discriminator answered to the input that its nodes
/// still hold the state of. Its error against `target` is carried down
/// through the weights, layer by layer: below the last layer a node is
/// expected to emit the raw error that reaches it, and its error is that
/// expectation minus what it emitted. No activation slope and no learning
/// rate enter, and the discriminator is only read.
pub fn get_error<S: Scalar>(discriminator: &DNN<S>, output: &Vec<S>, target: &Vec<S>) -> (signal:
    Vec<S>)
    requires
        discriminator.wf(),
        output@.len() == discriminator@.values.last().len(),
        target@.len() == discriminator@.values.last().len(),
    ensures
        signal@ == discriminator@.signal(layer_errors(target@, output@)),
{
    let ghost m = discriminator@;
    let ghost top = layer_errors(target@, output@);
    let layers = discriminator.node_vals.len();
    let mut layer: usize = layers - 1;
    let mut errors: Vec<S> = errors_of(target, output);
    let mut expected: Vec<S> = Vec::new();
    while layer >= 1
        invariant
            discriminator.wf(),
            m == discriminator@,
            layers == m.values.len(),
            0 <= layer < layers,
            layer >= 1 ==> errors@ == m.errors_at(top, layer as int),
            layer >= 1 ==> errors@.len() == m.values[layer as int].len(),
            layer < layers - 1 ==> expected@ == m.expected_at(top, layer as int),
        decreases layer,
    {
        expected = carry_down(discriminator, layer, &errors);
        layer -= 1;
        if layer >= 1 {
            errors = errors_against(discriminator, layer, &expected);
        }
    }
    expected
}

/// Entry by entry, `expected` minus `seen`.
fn errors_of<S: Scalar>(expected: &Vec<S>, seen: &Vec<S>) -> (errors: Vec<S>)
    requires
        expected@.len() == seen@.len(),
    ensures
        errors@ == layer_errors(expected@, seen@),
{
    let mut errors: Vec<S> = Vec::new();
    let mut o: usize = 0;
    while o < seen.len()
        invariant
            expected@.len() == seen@.len(),
            o <= seen@.len(),
            errors@.len() == o,
            forall|k: int| 0 <= k < o ==> #[trigger] errors@[k] == expected@[k].minus_spec(seen@[k]),
        decreases seen@.len() - o,
    {
        errors.push(expected[o].minus(seen[o]));
        o += 1;
    }
    assert(errors@ =~= layer_errors(expected@, seen@));
    errors
}

/// Entry by entry, `expected` minus what the nodes of layer `layer` emitted.
fn errors_against<S: Scalar>(net: &DNN<S>, layer: usize, expected: &Vec<S>) -> (errors: Vec<S>)
    requires
        net.wf(),
        layer < net@.values.len(),
        expected@.len() == net@.values[layer as int].len(),
    ensures
        errors@ == layer_errors(expected@, net@.outputs[layer as int]),
{
    let width = net.node_vals[layer].len();
    let mut errors: Vec<S> = Vec::new();
    let mut o: usize = 0;
    while o < width
        invariant
            net.wf(),
            layer < net@.values.len(),
            width == net@.values[layer as int].len(),
            width == net@.outputs[layer as int].len(),
            width == net.node_vals@[layer as int]@.len(),
            expected@.len() == width,
            o <= width,
            errors@.len() == o,
            forall|k: int|
                0 <= k < o ==> #[trigger] errors@[k] == expected@[k].minus_spec(
                    net@.outputs[layer as int][k],
                ),
        decreases width - o,
    {
        errors.push(expected[o].minus(net.node_vals[layer][o].output));
        o += 1;
    }
    assert(errors@ =~= layer_errors(expected@, net@.outputs[layer as int]));
    errors
}

/// The errors of layer `layer`, carried down through the weights to the
/// nodes of the layer below.
fn carry_down<S: Scalar>(net: &DNN<S>, layer: usize, errors: &Vec<S>) -> (next: Vec<S>)
    requires
        net.wf(),
        1 <= layer < net@.values.len(),
        errors@.len() == net@.values[layer as int].len(),
    ensures
        next@ == projected(net@.weights[layer - 1], errors@, net@.values[layer - 1].len()),
{
    proof {
        net@.lemma_rows(layer - 1);
    }
    let below = net.node_vals[layer - 1].len();
    let width = net.node_vals[layer].len();
    let mut next: Vec<S> = Vec::new();
    let mut fill: usize = 0;
    while fill < below
        invariant
            fill <= below,
            next@.len() == fill,
            forall|i: int| 0 <= i < fill ==> #[trigger] next@[i] == zero::<S>(),
        decreases below - fill,
    {
        next.push(S::from_int(0));
        fill += 1;
    }
    let mut output: usize = 0;
    while output < width
        invariant
            net.wf(),
            1 <= layer < net@.values.len(),
            below == net@.values[layer - 1].len(),
            below == net.node_vals@[layer - 1]@.len(),
            width == net@.values[layer as int].len(),
            errors@.len() == width,
            output <= width,
            next@.len() == below,
            forall|i: int|
                0 <= i < below ==> #[trigger] next@[i] == back_projection(
                    net@.weights[layer - 1],
                    errors@,
                    i,
                    output as int,
                ),
        decreases width - output,
    {
        let error = errors[output];
        let mut input: usize = 0;
        while input < below
            invariant
                net.wf(),
                1 <= layer < net@.values.len(),
                below == net@.values[layer - 1].len(),
                width == net@.values[layer as int].len(),
                errors@.len() == width,
                output < width,
                error == errors@[output as int],
                input <= below,
                next@.len() == below,
                forall|i: int|
                    0 <= i < below ==> #[trigger] next@[i] == back_projection(
                        net@.weights[layer - 1],
                        errors@,
                        i,
                        if i < input {
                            output + 1
                        } else {
                            output as int
                        },
                    ),
            decreases below - input,
        {
            proof {
                net@.lemma_rows(layer - 1);
            }
            let carried = next[input].plus(net.weights[layer - 1][input][output].times(error));
            next[input] = carried;
            input += 1;
        }
        output += 1;
    }
    assert(next@ =~= projected(net@.weights[layer - 1], errors@, net@.values[layer - 1].len()));
    next
}

/// One round of generator training on `noise`: the discriminator judges the
/// fake, the error of its verdict against one is carried down to its input,
/// and the generator is trained towards that signal.
pub fn generator_round<S: Scalar>(gan: &mut GAN<S>, noise: &Vec<S>, commit: bool)
    requires
        old(gan).wf(),
        noise@.len() == old(gan)@.generator.values[0].len(),
    ensures
        final(gan).wf(),
        old(gan)@.same_widths(final(gan)@),
        final(gan)@ == old(gan)@.generator_round(noise@, commit),
{
    proof {
        old(gan)@.lemma_generator_round_shape(noise@, commit);
        old(gan)@.generator.lemma_forward_shape(noise@);
        old(gan)@.discriminator.lemma_forward_shape(old(gan)@.generator.answer(noise@));
    }
    let fake = generate(&mut gan.generator, noise);
    let output = run_net(&mut gan.discriminator, fake.as_slice());
    let accept = single(S::from_int(1));
    let errors = get_error(&gan.discriminator, &output, &accept);
    proof {
        gan@.discriminator.lemma_signal_len(layer_errors(accept@, output@));
    }
    train_net(&mut gan.generator, noise.as_slice(), errors.as_slice(), commit);
}

/// Trains the generator for `iters` rounds.
///
/// In every round, noise of the width of the generator's first layer is
/// drawn from `source` and one round of generator training is run on it. The
/// generator commits in every tenth round. The discriminator's weights and
/// pending gradient are never written.
pub fn train_generator<S: Scalar, N: NoiseSource<S>>(gan: &mut GAN<S>, iters: usize, source: &mut N)
    requires
        old(gan).wf(),
    ensures
        final(gan).wf(),
        old(gan)@.same_widths(final(gan)@),
        final(gan)@.discriminator.weights == old(gan)@.discriminator.weights,
        final(gan)@.discriminator.pending == old(gan)@.discriminator.pending,
        exists|noises: Seq<Seq<S>>|
            are_noises(noises, iters as nat, old(gan)@.generator.values[0].len())
                && #[trigger] old(gan)@.after_generator_rounds(noises, iters as nat)
                == final(gan)@,
{
    let ghost before = gan@;
    let ghost mut noises: Seq<Seq<S>> = Seq::empty();
    let mut iter: usize = 0;
    while iter < iters
        invariant
            gan.wf(),
            before.same_widths(gan@),
            iter <= iters,
            are_noises(noises, iter as nat, before.generator.values[0].len()),
            gan@.discriminator.weights == before.discriminator.weights,
            gan@.discriminator.pending == before.discriminator.pending,
            gan@ == before.after_generator_rounds(noises, iter as nat),
        decreases iters - iter,
    {
        let width = gan.generator.node_vals[0].len();
        let noise = noise_of_width(width, source);
        let ghost earlier = noises;
        proof {
            noises = noises.push(noise@);
            lemma_generator_rounds_prefix(before, earlier, noises, iter as nat);
            assert(gan@.generator.values[0].len() == before.generator.values[0].len());
            assert forall|k: int| 0 <= k < noises.len() implies is_noise(
                #[trigger] noises[k],
                before.generator.values[0].len(),
            ) by {
                if k < earlier.len() {
                    assert(noises[k] == earlier[k]);
                }
            }
        }
        generator_round(gan, &noise, iter % 10 == 9);
        iter += 1;
    }
    proof {
        assert(before.after_generator_rounds(noises, iters as nat) == gan@);
    }
}

/// The number of samples that the discriminator is scored on.
pub const SCORE_ROUNDS: usize = 100;

/// What the discriminator has earned on the first `k` rounds of scoring: in
/// round `j`, its verdict on `samples[j]`, and one minus its verdict on the
/// fake made from `noises[j]`, added in this order.
pub open spec fn tally<S: Scalar>(
    gan: GanModel<S>,
    samples: Seq<Seq<S>>,
    noises: Seq<Seq<S>>,
    k: nat,
) -> S
    decreases k,
{
    if k == 0 {
        zero()
    } else {
        tally(gan, samples, noises, (k - 1) as nat).plus_spec(
            gan.discriminator.answer(samples[k - 1])[0],
        ).plus_spec(
            one::<S>().minus_spec(
                gan.discriminator.answer(gan.generator.answer(noises[k - 1]))[0],
            ),
        )
    }
}

/// The discriminator's score: its tally over all rounds, divided by the
/// number of verdicts that went into it.
pub open spec fn score_spec<S: Scalar>(
    gan: GanModel<S>,
    samples: Seq<Seq<S>>,
    noises: Seq<Seq<S>>,
) -> S {
    tally(gan, samples, noises, SCORE_ROUNDS as nat).over_spec(S::from_int_spec(200))
}

/// The first `k` rounds of scoring depend on the first `k` noises only.
proof fn lemma_tally_prefix<S: Scalar>(
    gan: GanModel<S>,
    samples: Seq<Seq<S>>,
    a: Seq<Seq<S>>,
    b: Seq<Seq<S>>,
    k: nat,
)
    requires
        k <= a.len() <= b.len(),
        forall|j: int| 0 <= j < k ==> a[j] == b[j],
    ensures
        tally(gan, samples, a, k) == tally(gan, samples, b, k),
    decreases k,
{
    if k > 0 {
        lemma_tally_prefix(gan, samples, a, b, (k - 1) as nat);
    }
}

/// Scores the discriminator on the first hundred samples: the mean of how
/// real it finds each sample and how fake it finds a fake made from fresh
/// noise. Both networks are only evaluated.
pub fn discriminator_score<S: Scalar, N: NoiseSource<S>>(
    gan: &mut GAN<S>,
    samples: &Vec<Vec<S>>,
    source: &mut N,
) -> (score: S)
    requires
        old(gan).wf(),
        samples@.len() >= SCORE_ROUNDS,
        forall|k: int|
            0 <= k < SCORE_ROUNDS ==> (#[trigger] samples@[k])@.len()
                == old(gan)@.discriminator.values[0].len(),
    ensures
        final(gan).wf(),
        same_function(old(gan)@.discriminator, final(gan)@.discriminator),
        same_function(old(gan)@.generator, final(gan)@.generator),
        final(gan)@.discriminator.pending == old(gan)@.discriminator.pending,
        final(gan)@.generator.pending == old(gan)@.generator.pending,
        exists|noises: Seq<Seq<S>>|
            are_noises(noises, SCORE_ROUNDS as nat, old(gan)@.generator.values[0].len())
                && #[trigger] score_spec(old(gan)@, samples_view(*samples), noises) == score,
{
    let ghost before = gan@;
    let ghost mut noises: Seq<Seq<S>> = Seq::empty();
    let mut score = S::from_int(0);
    let mut e: usize = 0;
    while e < SCORE_ROUNDS
        invariant
            gan.wf(),
            before.wf(),
            same_function(before.discriminator, gan@.discriminator),
            same_function(before.generator, gan@.generator),
            gan@.discriminator.pending == before.discriminator.pending,
            gan@.generator.pending == before.generator.pending,
            e <= SCORE_ROUNDS,
            samples@.len() >= SCORE_ROUNDS,
            forall|k: int|
                0 <= k < SCORE_ROUNDS ==> (#[trigger] samples@[k])@.len()
                    == before.discriminator.values[0].len(),
            are_noises(noises, e as nat, before.generator.values[0].len()),
            score == tally(before, samples_view(*samples), noises, e as nat),
        decreases SCORE_ROUNDS - e,
    {
        let ghost held = gan@;
        proof {
            held.discriminator.lemma_forward_shape(samples@[e as int]@);
            law_answer_determined(before.discriminator, held.discriminator, samples@[e as int]@);
        }
        let verdict = run_net(&mut gan.discriminator, samples[e].as_slice());
        score = score.plus(verdict[0]);
        let width = gan.generator.node_vals[0].len();
        let noise = noise_of_width(width, source);
        let ghost earlier = noises;
        let ghost judged = gan@;
        proof {
            noises = noises.push(noise@);
            lemma_tally_prefix(before, samples_view(*samples), earlier, noises, e as nat);
            assert(gan@.generator.values[0].len() == before.generator.values[0].len());
            assert forall|k: int| 0 <= k < noises.len() implies is_noise(
                #[trigger] noises[k],
                before.generator.values[0].len(),
            ) by {
                if k < earlier.len() {
                    assert(noises[k] == earlier[k]);
                }
            }
            held.generator.lemma_forward_shape(noise@);
            law_answer_determined(before.generator, held.generator, noise@);
            judged.discriminator.lemma_forward_shape(held.generator.answer(noise@));
            law_answer_determined(
                before.discriminator,
                judged.discriminator,
                before.generator.answer(noise@),
            );
        }
        let fake = generate(&mut gan.generator, &noise);
        let doubt = run_net(&mut gan.discriminator, fake.as_slice());
        score = score.plus(S::from_int(1).minus(doubt[0]));
        e += 1;
    }
    let score = score.over(S::from_int(200));
    proof {
        assert(score_spec(before, samples_view(*samples), noises) == score);
    }
    score
}

/// Whether a score says that the discriminator needs more training: whether
/// it is below six tenths.
pub fn discriminator_lags<S: Scalar>(score: S) -> (lags: bool)
    ensures
        lags == S::from_int_spec(6).over_spec(S::from_int_spec(10)).greater_spec(score),
{
    S::from_int(6).over(S::from_int(10)).greater(score)
}

} // verus!

use vstd::prelude::*;
use crate::scalar::{Scalar, zero, one};
use crate::activation::{activation_function, activation_derivative, sigmoid_spec};
use crate::error::BuildError;
use crate::noise::NoiseSource;
use crate::model::{
    NetModel, weighted_sum, layer_values, layer_outputs, layer_errors, source_output,
    node_gradient, back_projection, projected, tensor_update, tensor_is_zero, matrix_shaped,
};

verus! {

/// The working state of one node: the weighted sum that reached it and what
/// it emitted for it.
pub struct Node<S> {
    /// The weighted sum that reached the node; for a node of the first
    /// layer, its input.
    pub value: S,
    /// What the node emitted: the activation of `value`; for a node of the
    /// first layer, its input.
    pub output: S,
}

/// A dense feed-forward network.
///
/// Every layer but the last has a bias unit besides its nodes: a unit that
/// emits the same output whatever the input, through weights that are
/// trained like all others.
pub struct DNN<S> {
    /// `weights[l][i][o]` joins input-side unit `i` of layer `l` to node `o`
    /// of layer `l + 1`; the last row of each matrix belongs to the bias
    /// unit.
    pub weights: Vec<Vec<Vec<S>>>,
    /// The gradient gathered since the last commit, shaped like `weights`.
    pub weights_adjustment: Vec<Vec<Vec<S>>>,
    /// The nodes of every layer, with the state of the last evaluation.
    pub node_vals: Vec<Vec<Node<S>>>,
    /// What every bias unit emits.
    pub bias_output: S,
    /// The factor by which every gradient is scaled.
    pub learn_rate: S,
}

/// The entries of a tensor held in nested vectors.
pub open spec fn tensor_view<S>(t: Vec<Vec<Vec<S>>>) -> Seq<Seq<Seq<S>>> {
    Seq::new(t@.len(), |l: int| Seq::new(t@[l]@.len(), |i: int| t@[l]@[i]@))
}

/// The pre-activation values held by the nodes of every layer.
pub open spec fn values_view<S>(nodes: Vec<Vec<Node<S>>>) -> Seq<Seq<S>> {
    Seq::new(nodes@.len(), |l: int| Seq::new(nodes@[l]@.len(), |i: int| nodes@[l]@[i].value))
}

/// The outputs held by the nodes of every layer.
pub open spec fn outputs_view<S>(nodes: Vec<Vec<Node<S>>>) -> Seq<Seq<S>> {
    Seq::new(nodes@.len(), |l: int| Seq::new(nodes@[l]@.len(), |i: int| nodes@[l]@[i].output))
}

impl<S: Scalar> View for DNN<S> {
    type V = NetModel<S>;

    open spec fn view(&self) -> NetModel<S> {
        NetModel {
            weights: tensor_view(self.weights),
            pending: tensor_view(self.weights_adjustment),
            values: values_view(self.node_vals),
            outputs: outputs_view(self.node_vals),
            bias_output: self.bias_output,
            learn_rate: self.learn_rate,
        }
    }
}

impl<S: Scalar> DNN<S> {
    /// The layers are in place and both tensors are shaped after them.
    pub open spec fn wf(&self) -> bool {
        self@.wf()
    }
}

/// A topology that a network can be built on: at least two layers, and at
/// least one node in each.
pub open spec fn valid_topology(widths: Seq<usize>) -> bool {
    &&& widths.len() >= 2
    &&& forall|l: int| 0 <= l < widths.len() ==> #[trigger] widths[l] > 0
}

/// The weight that a draw from the unit interval stands for: twice the draw,
/// minus one.
pub open spec fn initial_weight_spec<S: Scalar>(draw: S) -> S {
    draw.times_spec(S::from_int_spec(2)).minus_spec(one())
}

/// The learning rate that a new network starts with: one tenth.
pub open spec fn default_learn_rate<S: Scalar>() -> S {
    one::<S>().over_spec(S::from_int_spec(10))
}

/// The weight is the initial weight of some draw from the unit interval.
pub open spec fn is_drawn<S: Scalar>(weight: S) -> bool {
    exists|draw: S| draw.is_unit_spec() && weight == #[trigger] initial_weight_spec(draw)
}

/// Every weight is the initial weight of some draw.
pub open spec fn tensor_is_drawn<S: Scalar>(t: Seq<Seq<Seq<S>>>) -> bool {
    forall|l: int, i: int, o: int|
        0 <= l < t.len() && 0 <= i < t[l].len() && 0 <= o < t[l][i].len() ==> is_drawn(
            #[trigger] t[l][i][o],
        )
}

/// What holds of a network that was just built on `widths`: it has the
/// layers asked for, its tensors are shaped after them, nothing is pending,
/// every weight was drawn, every node rests at value zero, and the bias
/// output and the learning rate have their initial values.
pub open spec fn freshly_built<S: Scalar>(net: NetModel<S>, widths: Seq<usize>) -> bool {
    &&& net.wf()
    &&& net.values.len() == widths.len()
    &&& forall|l: int| 0 <= l < widths.len() ==> (#[trigger] net.values[l]).len() == widths[l]
    &&& tensor_is_zero(net.pending)
    &&& tensor_is_drawn(net.weights)
    &&& forall|l: int, i: int|
        0 <= l < net.values.len() && 0 <= i < net.values[l].len() ==> #[trigger] net.values[l][i]
            == zero::<S>()
    &&& forall|l: int, i: int|
        0 <= l < net.outputs.len() && 0 <= i < net.outputs[l].len()
            ==> #[trigger] net.outputs[l][i] == sigmoid_spec(zero::<S>())
    &&& net.bias_output == sigmoid_spec(one::<S>())
    &&& net.learn_rate == default_learn_rate::<S>()
}

/// How the vectors of a well-formed network line up with its model at the
/// transition that leaves layer `t` and at its input-side unit `i`.
proof fn lemma_place<S: Scalar>(net: &DNN<S>, t: int, i: int)
    requires
        net.wf(),
        0 <= t < net@.values.len() - 1,
        0 <= i <= net@.values[t].len(),
    ensures
        net.node_vals@.len() == net@.values.len(),
        net.weights@.len() == net@.values.len() - 1,
        net.weights_adjustment@.len() == net@.values.len() - 1,
        net.node_vals@[t]@.len() == net@.values[t].len(),
        net.node_vals@[t + 1]@.len() == net@.values[t + 1].len(),
        net@.outputs[t].len() == net@.values[t].len(),
        net@.outputs[t + 1].len() == net@.values[t + 1].len(),
        net.weights@[t]@.len() == net@.values[t].len() + 1,
        net.weights_adjustment@[t]@.len() == net@.values[t].len() + 1,
        net@.weights[t].len() == net@.values[t].len() + 1,
        net@.pending[t].len() == net@.values[t].len() + 1,
        net.weights@[t]@[i]@ == net@.weights[t][i],
        net.weights_adjustment@[t]@[i]@ == net@.pending[t][i],
        net@.weights[t][i].len() == net@.values[t + 1].len(),
        net@.pending[t][i].len() == net@.values[t + 1].len(),
{
    net@.lemma_rows(t);
}

/// The weight that a draw from the unit interval stands for.
pub fn initial_weight<S: Scalar>(draw: S) -> (weight: S)
    ensures
        weight == initial_weight_spec(draw),
{
    draw.times(S::from_int(2)).minus(S::from_int(1))
}

/// Whether the topology has at least two layers and no empty layer.
pub fn is_valid_topology(nodes_per_layer: &[usize]) -> (valid: bool)
    ensures
        valid == valid_topology(nodes_per_layer@),
{
    if nodes_per_layer.len() < 2 {
        return false;
    }
    let mut layer: usize = 0;
    while layer < nodes_per_layer.len()
        invariant
            layer <= nodes_per_layer@.len(),
            forall|l: int| 0 <= l < layer ==> #[trigger] nodes_per_layer@[l] > 0,
        decreases nodes_per_layer@.len() - layer,
    {
        if nodes_per_layer[layer] == 0 {
            return false;
        }
        layer += 1;
    }
    true
}

/// A row of `cols` freshly drawn weights.
fn drawn_row<S: Scalar, N: NoiseSource<S>>(cols: usize, source: &mut N) -> (row: Vec<S>)
    ensures
        row@.len() == cols,
        forall|o: int| 0 <= o < cols ==> is_drawn(#[trigger] row@[o]),
{
    let mut row: Vec<S> = Vec::new();
    let mut output: usize = 0;
    while output < cols
        invariant
            output <= cols,
            row@.len() == output,
            forall|o: int| 0 <= o < output ==> is_drawn(#[trigger] row@[o]),
        decreases cols - output,
    {
        let draw = source.draw();
        row.push(initial_weight(draw));
        output += 1;
    }
    row
}

/// The nodes of a layer of `width` nodes, at rest.
fn resting_nodes<S: Scalar>(width: usize) -> (nodes: Vec<Node<S>>)
    ensures
        nodes@.len() == width,
        forall|i: int|
            0 <= i < width ==> (#[trigger] nodes@[i]).value == zero::<S>() && nodes@[i].output
                == sigmoid_spec(zero::<S>()),
{
    let mut nodes: Vec<Node<S>> = Vec::new();
    let mut i: usize = 0;
    while i < width
        invariant
            i <= width,
            nodes@.len() == i,
            forall|k: int|
                0 <= k < i ==> (#[trigger] nodes@[k]).value == zero::<S>() && nodes@[k].output
                    == sigmoid_spec(zero::<S>()),
        decreases width - i,
    {
        nodes.push(Node { value: S::from_int(0), output: activation_function(S::from_int(0)) });
        i += 1;
    }
    nodes
}

/// Builds a network on the given topology.
///
/// `nodes_per_layer` gives the number of nodes of each layer, first layer
/// first. Every layer but the last gets a bias unit of its own. The weights
/// are drawn from `source`, transition by transition, row by row and entry
/// by entry; nothing is pending; the learning rate is one tenth.
pub fn new<S: Scalar, N: NoiseSource<S>>(nodes_per_layer: &[usize], source: &mut N) -> (made:
    Result<DNN<S>, BuildError>)
    ensures
        made is Ok <==> valid_topology(nodes_per_layer@),
        made is Err ==> made == Err::<DNN<S>, BuildError>(BuildError::DegenerateTopology),
        made matches Ok(net) ==> freshly_built(net@, nodes_per_layer@),
{
    if !is_valid_topology(nodes_per_layer) {
        return Err(BuildError::DegenerateTopology);
    }
    let count = nodes_per_layer.len();
    let mut weights: Vec<Vec<Vec<S>>> = Vec::new();
    let mut weights_adjustment: Vec<Vec<Vec<S>>> = Vec::new();
    let mut node_vals: Vec<Vec<Node<S>>> = Vec::new();
    let mut layer: usize = 0;
    while layer < count - 1
        invariant
            count == nodes_per_layer@.len(),
            valid_topology(nodes_per_layer@),
            layer <= count - 1,
            weights@.len() == layer,
            weights_adjustment@.len() == layer,
            node_vals@.len() == layer,
            forall|l: int|
                0 <= l < layer ==> (#[trigger] node_vals@[l])@.len() == nodes_per_layer@[l],
            forall|l: int, i: int|
                0 <= l < layer && 0 <= i < nodes_per_layer@[l] ==> (#[trigger] node_vals@[l]@[i]).value
                    == zero::<S>() && node_vals@[l]@[i].output == sigmoid_spec(zero::<S>()),
            forall|l: int|
                0 <= l < layer ==> (#[trigger] weights@[l])@.len() == nodes_per_layer@[l] + 1,
            forall|l: int|
                0 <= l < layer ==> (#[trigger] weights_adjustment@[l])@.len() == nodes_per_layer@[l]
                    + 1,
            forall|l: int, i: int|
                0 <= l < layer && 0 <= i <= nodes_per_layer@[l] ==> (#[trigger] weights@[l]@[i])@.len()
                    == nodes_per_layer@[l + 1],
            forall|l: int, i: int|
                0 <= l < layer && 0 <= i <= nodes_per_layer@[l]
                    ==> (#[trigger] weights_adjustment@[l]@[i])@.len() == nodes_per_layer@[l + 1],
            forall|l: int, i: int, o: int|
                0 <= l < layer && 0 <= i <= nodes_per_layer@[l] && 0 <= o < nodes_per_layer@[l + 1]
                    ==> is_drawn(#[trigger] weights@[l]@[i]@[o]),
            forall|l: int, i: int, o: int|
                0 <= l < layer && 0 <= i <= nodes_per_layer@[l] && 0 <= o < nodes_per_layer@[l + 1]
                    ==> #[trigger] weights_adjustment@[l]@[i]@[o] == zero::<S>(),
        decreases count - 1 - layer,
    {
        let below = nodes_per_layer[layer];
        let width = nodes_per_layer[layer + 1];
        let mut matrix: Vec<Vec<S>> = Vec::new();
        let mut gathered: Vec<Vec<S>> = Vec::new();
        let mut input: usize = 0;
        loop
            invariant_except_break
                input <= below,
                matrix@.len() == input,
                gathered@.len() == input,
            invariant
                forall|i: int| 0 <= i < matrix@.len() ==> (#[trigger] matrix@[i])@.len() == width,
                forall|i: int|
                    0 <= i < gathered@.len() ==> (#[trigger] gathered@[i])@.len() == width,
                forall|i: int, o: int|
                    0 <= i < matrix@.len() && 0 <= o < width ==> is_drawn(
                        #[trigger] matrix@[i]@[o],
                    ),
                forall|i: int, o: int|
                    0 <= i < gathered@.len() && 0 <= o < width ==> #[trigger] gathered@[i]@[o]
                        == zero::<S>(),
            ensures
                matrix@.len() == below + 1,
                gathered@.len() == below + 1,
            decreases below - input,
        {
            matrix.push(drawn_row(width, source));
            gathered.push(zeros(width));
            if input == below {
                break ;
            }
            input += 1;
        }
        weights.push(matrix);
        weights_adjustment.push(gathered);
        node_vals.push(resting_nodes(below));
        layer += 1;
    }
    node_vals.push(resting_nodes(nodes_per_layer[count - 1]));
    let net = DNN {
        weights,
        weights_adjustment,
        node_vals,
        bias_output: activation_function(S::from_int(1)),
        learn_rate: S::from_int(1).over(S::from_int(10)),
    };
    proof {
        let m = net@;
        assert forall|l: int| 0 <= l < m.weights.len() implies matrix_shaped(
            #[trigger] m.weights[l],
            (m.values[l].len() + 1) as nat,
            m.values[l + 1].len(),
        ) by {
            assert(net.weights@[l]@.len() == nodes_per_layer@[l] + 1);
            assert forall|i: int| 0 <= i < m.values[l].len() + 1 implies (#[trigger] m.weights[l][i]).len()
                == m.values[l + 1].len() by {
                assert(net.weights@[l]@[i]@.len() == nodes_per_layer@[l + 1]);
            }
        }
        assert forall|l: int| 0 <= l < m.pending.len() implies matrix_shaped(
            #[trigger] m.pending[l],
            (m.values[l].len() + 1) as nat,
            m.values[l + 1].len(),
        ) by {
            assert(net.weights_adjustment@[l]@.len() == nodes_per_layer@[l] + 1);
            assert forall|i: int| 0 <= i < m.values[l].len() + 1 implies (#[trigger] m.pending[l][i]).len()
                == m.values[l + 1].len() by {
                assert(net.weights_adjustment@[l]@[i]@.len() == nodes_per_layer@[l + 1]);
            }
        }
        assert(m.wf());
        assert forall|l: int, i: int, o: int|
            0 <= l < m.pending.len() && 0 <= i < m.pending[l].len() && 0 <= o
                < m.pending[l][i].len() implies #[trigger] m.pending[l][i][o] == zero::<S>() by {
            assert(net.weights_adjustment@[l]@.len() == nodes_per_layer@[l] + 1);
            assert(net.weights_adjustment@[l]@[i]@.len() == nodes_per_layer@[l + 1]);
            assert(net.weights_adjustment@[l]@[i]@[o] == zero::<S>());
        }
        assert forall|l: int, i: int, o: int|
            0 <= l < m.weights.len() && 0 <= i < m.weights[l].len() && 0 <= o
                < m.weights[l][i].len() implies is_drawn(#[trigger] m.weights[l][i][o]) by {
            assert(net.weights@[l]@.len() == nodes_per_layer@[l] + 1);
            assert(net.weights@[l]@[i]@.len() == nodes_per_layer@[l + 1]);
            assert(is_drawn(net.weights@[l]@[i]@[o]));
        }
        assert forall|l: int, i: int|
            0 <= l < m.values.len() && 0 <= i < m.values[l].len() implies #[trigger] m.values[l][i]
            == zero::<S>() by {
            assert(net.node_vals@[l]@[i].value == zero::<S>());
        }
        assert forall|l: int, i: int|
            0 <= l < m.outputs.len() && 0 <= i < m.outputs[l].len() implies #[trigger] m.outputs[l][i]
            == sigmoid_spec(zero::<S>()) by {
            assert(net.node_vals@[l]@[i].output == sigmoid_spec(zero::<S>()));
        }
    }
    Ok(net)
}

/// Stores `node` as node `index` of layer `layer`.
fn set_node<S: Scalar>(net: &mut DNN<S>, layer: usize, index: usize, node: Node<S>)
    requires
        layer < old(net)@.values.len(),
        index < old(net)@.values[layer as int].len(),
    ensures
        final(net)@ == (NetModel {
            values: old(net)@.values.update(
                layer as int,
                old(net)@.values[layer as int].update(index as int, node.value),
            ),
            outputs: old(net)@.outputs.update(
                layer as int,
                old(net)@.outputs[layer as int].update(index as int, node.output),
            ),
            ..old(net)@
        }),
{
    net.node_vals[layer][index] = node;
    proof {
        let a = net@;
        let b = NetModel {
            values: old(net)@.values.update(
                layer as int,
                old(net)@.values[layer as int].update(index as int, node.value),
            ),
            outputs: old(net)@.outputs.update(
                layer as int,
                old(net)@.outputs[layer as int].update(index as int, node.output),
            ),
            ..old(net)@
        };
        assert(a.values =~~= b.values);
        assert(a.outputs =~~= b.outputs);
    }
}

/// The weighted sum that reaches node `output` of layer `layer`.
fn weigh<S: Scalar>(net: &DNN<S>, layer: usize, output: usize) -> (sum: S)
    requires
        net.wf(),
        1 <= layer < net@.values.len(),
        output < net@.values[layer as int].len(),
    ensures
        sum == weighted_sum(
            net@.weights[layer - 1],
            net@.outputs[layer - 1],
            net@.bias_output,
            output as int,
            net@.weights[layer - 1].len() as int,
        ),
{
    let rows = net.weights[layer - 1].len();
    let below = net.node_vals[layer - 1].len();
    let mut sum = S::from_int(0);
    let mut input: usize = 0;
    while input < rows
        invariant
            net.wf(),
            1 <= layer < net@.values.len(),
            output < net@.values[layer as int].len(),
            rows == net@.weights[layer - 1].len(),
            below == net@.outputs[layer - 1].len(),
            input <= rows,
            sum == weighted_sum(
                net@.weights[layer - 1],
                net@.outputs[layer - 1],
                net@.bias_output,
                output as int,
                input as int,
            ),
        decreases rows - input,
    {
        proof {
            lemma_place(net, layer - 1, input as int);
        }
        let emitted = if input < below {
            net.node_vals[layer - 1][input].output
        } else {
            net.bias_output
        };
        assert(emitted == source_output(net@.outputs[layer - 1], net@.bias_output, input as int));
        sum = sum.plus(net.weights[layer - 1][input][output].times(emitted));
        input += 1;
    }
    sum
}

/// Evaluates every node of layer `layer` from the outputs of the layer below.
fn run_layer<S: Scalar>(net: &mut DNN<S>, layer: usize)
    requires
        old(net).wf(),
        1 <= layer < old(net)@.values.len(),
    ensures
        final(net).wf(),
        final(net)@ == (NetModel {
            values: old(net)@.values.update(
                layer as int,
                layer_values(
                    old(net)@.weights[layer - 1],
                    old(net)@.outputs[layer - 1],
                    old(net)@.bias_output,
                    old(net)@.values[layer as int].len(),
                ),
            ),
            outputs: old(net)@.outputs.update(
                layer as int,
                layer_outputs(
                    layer_values(
                        old(net)@.weights[layer - 1],
                        old(net)@.outputs[layer - 1],
                        old(net)@.bias_output,
                        old(net)@.values[layer as int].len(),
                    ),
                ),
            ),
            ..old(net)@
        }),
{
    let ghost before = net@;
    let ghost fresh = layer_values(
        before.weights[layer - 1],
        before.outputs[layer - 1],
        before.bias_output,
        before.values[layer as int].len(),
    );
    proof {
        lemma_place(net, layer - 1, 0);
    }
    let width = net.node_vals[layer].len();
    let mut output: usize = 0;
    while output < width
        invariant
            net.wf(),
            1 <= layer < before.values.len(),
            width == before.values[layer as int].len(),
            output <= width,
            net@.weights == before.weights,
            net@.pending == before.pending,
            net@.bias_output == before.bias_output,
            net@.learn_rate == before.learn_rate,
            net@.values.len() == before.values.len(),
            net@.outputs.len() == before.outputs.len(),
            forall|l: int|
                0 <= l < before.values.len() && l != layer ==> #[trigger] net@.values[l]
                    == before.values[l],
            forall|l: int|
                0 <= l < before.values.len() && l != layer ==> #[trigger] net@.outputs[l]
                    == before.outputs[l],
            net@.values[layer as int].len() == width,
            net@.outputs[layer as int].len() == width,
            fresh == layer_values(
                before.weights[layer - 1],
                before.outputs[layer - 1],
                before.bias_output,
                before.values[layer as int].len(),
            ),
            forall|o: int| 0 <= o < output ==> #[trigger] net@.values[layer as int][o] == fresh[o],
            forall|o: int|
                0 <= o < output ==> #[trigger] net@.outputs[layer as int][o] == layer_outputs(
                    fresh,
                )[o],
        decreases width - output,
    {
        let value = weigh(net, layer, output);
        let node = Node { value, output: activation_function(value) };
        set_node(net, layer, output, node);
        output += 1;
    }
    proof {
        let goal = NetModel {
            values: before.values.update(layer as int, fresh),
            outputs: before.outputs.update(layer as int, layer_outputs(fresh)),
            ..before
        };
        assert(net@.values =~~= goal.values);
        assert(net@.outputs =~~= goal.outputs);
    }
}

/// Evaluates the network on `inputs` and returns what its last layer emits.
///
/// The first layer passes the inputs through; every later node takes the
/// weighted sum of what the layer below and its bias unit emit, and emits the
/// activation of that sum. Every node keeps its value and output; weights and
/// pending gradient are left alone.
pub fn run_net<S: Scalar>(net: &mut DNN<S>, inputs: &[S]) -> (ret: Vec<S>)
    requires
        old(net).wf(),
        inputs@.len() == old(net)@.values[0].len(),
    ensures
        final(net).wf(),
        final(net)@ == old(net)@.forward(inputs@),
        ret@ == old(net)@.answer(inputs@),
{
    let ghost before = net@;
    proof {
        lemma_place(net, 0, 0);
    }
    let mut input: usize = 0;
    while input < inputs.len()
        invariant
            net.wf(),
            input <= inputs@.len(),
            inputs@.len() == before.values[0].len(),
            net@.weights == before.weights,
            net@.pending == before.pending,
            net@.bias_output == before.bias_output,
            net@.learn_rate == before.learn_rate,
            net@.values.len() == before.values.len(),
            net@.outputs.len() == before.outputs.len(),
            forall|l: int|
                0 <= l < before.values.len() ==> (#[trigger] net@.values[l]).len()
                    == before.values[l].len(),
            forall|l: int|
                0 <= l < before.values.len() ==> (#[trigger] net@.outputs[l]).len()
                    == before.values[l].len(),
            forall|i: int| 0 <= i < input ==> #[trigger] net@.values[0][i] == inputs@[i],
            forall|i: int| 0 <= i < input ==> #[trigger] net@.outputs[0][i] == inputs@[i],
        decreases inputs@.len() - input,
    {
        let node = Node { value: inputs[input], output: inputs[input] };
        set_node(net, 0, input, node);
        input += 1;
    }
    assert(net@.values[0] =~= before.values_at(inputs@, 0));
    assert(net@.outputs[0] =~= before.outputs_at(inputs@, 0));
    let layers = net.node_vals.len();
    let mut layer: usize = 1;
    while layer < layers
        invariant
            net.wf(),
            layers == before.values.len(),
            1 <= layer <= layers,
            net@.weights == before.weights,
            net@.pending == before.pending,
            net@.bias_output == before.bias_output,
            net@.learn_rate == before.learn_rate,
            net@.values.len() == before.values.len(),
            net@.outputs.len() == before.outputs.len(),
            forall|l: int|
                0 <= l < before.values.len() ==> (#[trigger] net@.values[l]).len()
                    == before.values[l].len(),
            forall|l: int|
                0 <= l < layer ==> #[trigger] net@.values[l] == before.values_at(inputs@, l),
            forall|l: int|
                0 <= l < layer ==> #[trigger] net@.outputs[l] == before.outputs_at(inputs@, l),
        decreases layers - layer,
    {
        run_layer(net, layer);
        layer += 1;
    }
    proof {
        assert(net@.values =~= before.forward(inputs@).values);
        assert(net@.outputs =~= before.forward(inputs@).outputs);
    }
    let last = layers - 1;
    proof {
        lemma_place(net, last - 1, 0);
    }
    let width = net.node_vals[last].len();
    let mut ret: Vec<S> = Vec::new();
    let mut node: usize = 0;
    while node < width
        invariant
            last == net@.values.len() - 1,
            last < net.node_vals@.len(),
            width == net.node_vals@[last as int]@.len(),
            width == net@.outputs[last as int].len(),
            node <= width,
            ret@.len() == node,
            forall|o: int| 0 <= o < node ==> #[trigger] ret@[o] == net@.outputs[last as int][o],
        decreases width - node,
    {
        ret.push(net.node_vals[last][node].output);
        node += 1;
    }
    assert(ret@ =~= before.answer(inputs@));
    ret
}

/// Stores `x` as the weight `[t][i][o]`.
fn set_weight<S: Scalar>(net: &mut DNN<S>, t: usize, i: usize, o: usize, x: S)
    requires
        t < old(net)@.weights.len(),
        i < old(net)@.weights[t as int].len(),
        o < old(net)@.weights[t as int][i as int].len(),
    ensures
        final(net)@ == (NetModel {
            weights: tensor_update(old(net)@.weights, t as int, i as int, o as int, x),
            ..old(net)@
        }),
{
    net.weights[t][i][o] = x;
    proof {
        assert(net@.weights =~~= tensor_update(
            old(net)@.weights,
            t as int,
            i as int,
            o as int,
            x,
        ));
    }
}

/// Stores `x` as the pending entry `[t][i][o]`.
fn set_pending<S: Scalar>(net: &mut DNN<S>, t: usize, i: usize, o: usize, x: S)
    requires
        t < old(net)@.pending.len(),
        i < old(net)@.pending[t as int].len(),
        o < old(net)@.pending[t as int][i as int].len(),
    ensures
        final(net)@ == (NetModel {
            pending: tensor_update(old(net)@.pending, t as int, i as int, o as int, x),
            ..old(net)@
        }),
{
    net.weights_adjustment[t][i][o] = x;
    proof {
        assert(net@.pending =~~= tensor_update(
            old(net)@.pending,
            t as int,
            i as int,
            o as int,
            x,
        ));
    }
}

/// A vector of `n` zeros.
fn zeros<S: Scalar>(n: usize) -> (v: Vec<S>)
    ensures
        v@.len() == n,
        forall|i: int| 0 <= i < n ==> #[trigger] v@[i] == zero::<S>(),
{
    let mut v: Vec<S> = Vec::new();
    let mut i: usize = 0;
    while i < n
        invariant
            i <= n,
            v@.len() == i,
            forall|k: int| 0 <= k < i ==> #[trigger] v@[k] == zero::<S>(),
        decreases n - i,
    {
        v.push(S::from_int(0));
        i += 1;
    }
    v
}

/// The entries of `s`, in a vector of their own.
fn copy_of<S: Scalar>(s: &[S]) -> (v: Vec<S>)
    ensures
        v@ == s@,
{
    let mut v: Vec<S> = Vec::new();
    let mut i: usize = 0;
    while i < s.len()
        invariant
            i <= s@.len(),
            v@.len() == i,
            forall|k: int| 0 <= k < i ==> #[trigger] v@[k] == s@[k],
        decreases s@.len() - i,
    {
        v.push(s[i]);
        i += 1;
    }
    assert(v@ =~= s@);
    v
}

/// Trains the transition that feeds layer `layer` against what that layer was
/// expected to emit, and returns what the layer below is expected to emit.
fn train_layer<S: Scalar>(net: &mut DNN<S>, layer: usize, expected: &Vec<S>, commit: bool) -> (next:
    Vec<S>)
    requires
        old(net).wf(),
        1 <= layer < old(net)@.values.len(),
        expected@.len() == old(net)@.values[layer as int].len(),
    ensures
        final(net).wf(),
        final(net)@ == old(net)@.train_transition(
            layer - 1,
            layer_errors(expected@, old(net)@.outputs[layer as int]),
            commit,
        ),
        next@ == projected(
            old(net)@.weights[layer - 1],
            layer_errors(expected@, old(net)@.outputs[layer as int]),
            old(net)@.values[layer - 1].len(),
        ),
{
    let ghost before = net@;
    let ghost errors = layer_errors(expected@, before.outputs[layer as int]);
    let ghost t = layer - 1;
    proof {
        lemma_place(net, t, 0);
    }
    let below = net.node_vals[layer - 1].len();
    let width = net.node_vals[layer].len();
    let rows = net.weights[layer - 1].len();
    let mut next: Vec<S> = zeros(below);
    let mut output: usize = 0;
    while output < width
        invariant
            net.wf(),
            before.wf(),
            1 <= layer < before.values.len(),
            t == layer - 1,
            errors == layer_errors(expected@, before.outputs[layer as int]),
            expected@.len() == width,
            below == before.values[t].len(),
            width == before.values[layer as int].len(),
            rows == below + 1,
            output <= width,
            net@.values == before.values,
            net@.outputs == before.outputs,
            net@.bias_output == before.bias_output,
            net@.learn_rate == before.learn_rate,
            forall|l: int|
                0 <= l < before.weights.len() && l != t ==> #[trigger] net@.weights[l]
                    == before.weights[l],
            forall|l: int|
                0 <= l < before.pending.len() && l != t ==> #[trigger] net@.pending[l]
                    == before.pending[l],
            forall|i: int, o: int|
                0 <= i < rows && 0 <= o < width ==> #[trigger] net@.weights[t][i][o] == (if o
                    < output {
                    before.trained_weight(errors, t, i, o, commit)
                } else {
                    before.weights[t][i][o]
                }),
            forall|i: int, o: int|
                0 <= i < rows && 0 <= o < width ==> #[trigger] net@.pending[t][i][o] == (if o
                    < output {
                    before.trained_pending(errors, t, i, o, commit)
                } else {
                    before.pending[t][i][o]
                }),
            next@.len() == below,
            forall|i: int|
                0 <= i < below ==> #[trigger] next@[i] == back_projection(
                    before.weights[t],
                    errors,
                    i,
                    output as int,
                ),
        decreases width - output,
    {
        proof {
            lemma_place(net, t, 0);
        }
        let error = expected[output].minus(net.node_vals[layer][output].output);
        let gradient = activation_derivative(net.node_vals[layer][output].value).times(error).times(
            net.learn_rate,
        );
        assert(error == errors[output as int]);
        assert(gradient == node_gradient(
            before.values[layer as int][output as int],
            errors[output as int],
            before.learn_rate,
        ));
        let mut input: usize = 0;
        while input < rows
            invariant
                net.wf(),
                before.wf(),
                1 <= layer < before.values.len(),
                t == layer - 1,
                error == errors[output as int],
                gradient == node_gradient(
                    before.values[layer as int][output as int],
                    errors[output as int],
                    before.learn_rate,
                ),
                below == before.values[t].len(),
                width == before.values[layer as int].len(),
                rows == below + 1,
                output < width,
                input <= rows,
                net@.values == before.values,
                net@.outputs == before.outputs,
                net@.bias_output == before.bias_output,
                net@.learn_rate == before.learn_rate,
                forall|l: int|
                    0 <= l < before.weights.len() && l != t ==> #[trigger] net@.weights[l]
                        == before.weights[l],
                forall|l: int|
                    0 <= l < before.pending.len() && l != t ==> #[trigger] net@.pending[l]
                        == before.pending[l],
                forall|i: int, o: int|
                    0 <= i < rows && 0 <= o < width ==> #[trigger] net@.weights[t][i][o] == (if o
                        < output || (o == output && i < input) {
                        before.trained_weight(errors, t, i, o, commit)
                    } else {
                        before.weights[t][i][o]
                    }),
                forall|i: int, o: int|
                    0 <= i < rows && 0 <= o < width ==> #[trigger] net@.pending[t][i][o] == (if o
                        < output || (o == output && i < input) {
                        before.trained_pending(errors, t, i, o, commit)
                    } else {
                        before.pending[t][i][o]
                    }),
                next@.len() == below,
                forall|i: int|
                    0 <= i < below ==> #[trigger] next@[i] == back_projection(
                        before.weights[t],
                        errors,
                        i,
                        if i < input {
                            output + 1
                        } else {
                            output as int
                        },
                    ),
            decreases rows - input,
        {
            proof {
                lemma_place(net, t, input as int);
            }
            let emitted = if input < below {
                net.node_vals[layer - 1][input].output
            } else {
                net.bias_output
            };
            assert(emitted == source_output(before.outputs[t], before.bias_output, input as int));
            let held = net.weights[layer - 1][input][output];
            assert(held == before.weights[t][input as int][output as int]);
            let gathered = net.weights_adjustment[layer - 1][input][output].plus(
                gradient.times(emitted),
            );
            assert(gathered == before.pending[t][input as int][output as int].plus_spec(
                before.step(errors, t, input as int, output as int),
            ));
            if input < below {
                let carried = next[input].plus(held.times(error));
                next[input] = carried;
            }
            if commit {
                set_weight(net, layer - 1, input, output, held.plus(gathered));
                set_pending(net, layer - 1, input, output, S::from_int(0));
            } else {
                set_pending(net, layer - 1, input, output, gathered);
            }
            input += 1;
        }
        output += 1;
    }
    proof {
        let goal = before.train_transition(t, errors, commit);
        before.lemma_rows(t);
        assert(net@.weights =~~= goal.weights);
        assert(net@.pending =~~= goal.pending);
        assert(next@ =~= projected(before.weights[t], errors, before.values[t].len()));
    }
    next
}

/// Trains the network on one sample.
///
/// The network is evaluated on `inputs`. From the last layer down to the
/// second, every node's error is what it was expected to emit minus what it
/// emitted, and every pending entry that feeds the node grows by the node's
/// gradient times what its input-side unit emitted. The raw errors, carried
/// down through the weights as they were before the call, are what the layer
/// below is expected to emit. With `execute`, every weight then takes up its
/// pending entry, which is reset to zero; without it, the weights are left
/// alone and the pending entries keep what they gathered.
pub fn train_net<S: Scalar>(net: &mut DNN<S>, inputs: &[S], outputs: &[S], execute: bool)
    requires
        old(net).wf(),
        inputs@.len() == old(net)@.values[0].len(),
        outputs@.len() == old(net)@.values.last().len(),
    ensures
        final(net).wf(),
        final(net)@ == old(net)@.train(inputs@, outputs@, execute),
{
    let ghost before = net@;
    run_net(net, inputs);
    let ghost seen = net@;
    let ghost top = layer_errors(outputs@, seen.outputs.last());
    let ghost layers = seen.values.len() as int;
    proof {
        lemma_place(net, 0, 0);
    }
    let mut expected = copy_of(outputs);
    let mut layer: usize = net.node_vals.len() - 1;
    while layer >= 1
        invariant
            net.wf(),
            seen.wf(),
            layers == seen.values.len(),
            0 <= layer < layers,
            top == layer_errors(outputs@, seen.outputs.last()),
            net@.values == seen.values,
            net@.outputs == seen.outputs,
            net@.bias_output == seen.bias_output,
            net@.learn_rate == seen.learn_rate,
            net@.weights.len() == seen.weights.len(),
            net@.pending.len() == seen.pending.len(),
            forall|l: int|
                0 <= l < layer ==> #[trigger] net@.weights[l] == seen.weights[l],
            forall|l: int|
                0 <= l < layer ==> #[trigger] net@.pending[l] == seen.pending[l],
            forall|l: int|
                layer <= l < layers - 1 ==> #[trigger] net@.weights[l] == seen.trained_weights(
                    seen.errors_at(top, l + 1),
                    l,
                    execute,
                ),
            forall|l: int|
                layer <= l < layers - 1 ==> #[trigger] net@.pending[l] == seen.trained_pendings(
                    seen.errors_at(top, l + 1),
                    l,
                    execute,
                ),
            layer >= 1 ==> expected@.len() == seen.values[layer as int].len(),
            layer >= 1 ==> layer_errors(expected@, seen.outputs[layer as int]) == seen.errors_at(
                top,
                layer as int,
            ),
        decreases layer,
    {
        let ghost prev = net@;
        let ghost errors = layer_errors(expected@, seen.outputs[layer as int]);
        let next = train_layer(net, layer, &expected, execute);
        proof {
            let t = layer - 1;
            seen.lemma_rows(t);
            prev.lemma_rows(t);
            assert(prev.trained_weights(errors, t, execute) =~~= seen.trained_weights(
                seen.errors_at(top, t + 1),
                t,
                execute,
            ));
            assert(prev.trained_pendings(errors, t, execute) =~~= seen.trained_pendings(
                seen.errors_at(top, t + 1),
                t,
                execute,
            ));
            assert(next@ == seen.expected_at(top, t));
        }
        expected = next;
        layer -= 1;
    }
    proof {
        let goal = before.train(inputs@, outputs@, execute);
        assert(net@.weights =~= goal.weights);
        assert(net@.pending =~= goal.pending);
    }
}

} // verus!

//! Feed-forward networks and their flat encoding as a sequence of genes.

use rand_chacha::ChaCha8Rng;
use vstd::prelude::*;

verus! {

/// The width of one layer of a network.
#[derive(Clone, Copy, Debug)]
pub struct LayerTopology {
    pub neurons: usize,
}

/// What a neuron is: a bias and one weight per input.
pub struct NeuronView<T> {
    pub bias: T,
    pub weights: Seq<T>,
}

/// Number of genes that layer `k` of a network of the given topology takes:
/// for each of its neurons a bias and one weight per neuron of the layer
/// before.
pub open spec fn layer_genes(topology: Seq<LayerTopology>, k: int) -> int {
    topology[k + 1].neurons * (topology[k].neurons + 1)
}

/// Number of genes that the layers before layer `k` take.
pub open spec fn genes_before(topology: Seq<LayerTopology>, k: int) -> int
    decreases k,
{
    if k <= 0 {
        0
    } else {
        genes_before(topology, k - 1) + layer_genes(topology, k - 1)
    }
}

/// Number of genes that encode a network of the given topology.
pub open spec fn weight_count(topology: Seq<LayerTopology>) -> int {
    genes_before(topology, topology.len() - 1)
}

/// The neuron with `inputs` weights that is read from `genes` at `start`.
pub open spec fn decode_neuron<T>(genes: Seq<T>, start: int, inputs: int) -> NeuronView<T> {
    NeuronView { bias: genes[start], weights: genes.subrange(start + 1, start + 1 + inputs) }
}

/// The layer of `neurons` neurons with `inputs` weights each that is read
/// from `genes` at `start`.
pub open spec fn decode_layer<T>(genes: Seq<T>, start: int, inputs: int, neurons: int) -> Seq<
    NeuronView<T>,
> {
    Seq::new(neurons as nat, |j: int| decode_neuron(genes, start + j * (inputs + 1), inputs))
}

/// The network of the given topology that is read from `genes`.
pub open spec fn decode<T>(topology: Seq<LayerTopology>, genes: Seq<T>) -> Seq<Seq<NeuronView<T>>> {
    Seq::new(
        (topology.len() - 1) as nat,
        |k: int|
            decode_layer(
                genes,
                genes_before(topology, k),
                topology[k].neurons as int,
                topology[k + 1].neurons as int,
            ),
    )
}

/// The genes of one neuron: its bias, then its weights in input order.
pub open spec fn flatten_neuron<T>(neuron: NeuronView<T>) -> Seq<T> {
    seq![neuron.bias] + neuron.weights
}

/// The genes of one layer: those of its neurons, in neuron order.
pub open spec fn flatten_layer<T>(layer: Seq<NeuronView<T>>) -> Seq<T>
    decreases layer.len(),
{
    if layer.len() == 0 {
        Seq::empty()
    } else {
        flatten_layer(layer.drop_last()) + flatten_neuron(layer.last())
    }
}

/// The genes of a network: those of its layers, in layer order.
pub open spec fn flatten<T>(layers: Seq<Seq<NeuronView<T>>>) -> Seq<T>
    decreases layers.len(),
{
    if layers.len() == 0 {
        Seq::empty()
    } else {
        flatten(layers.drop_last()) + flatten_layer(layers.last())
    }
}

/// Whether `layers` has the given topology: one layer per adjacent pair of
/// widths, as many neurons in a layer as the second width of its pair says,
/// and as many weights in each of them as the first.
pub open spec fn shaped<T>(layers: Seq<Seq<NeuronView<T>>>, topology: Seq<LayerTopology>) -> bool {
    &&& topology.len() == layers.len() + 1
    &&& forall|k: int|
        0 <= k < layers.len() ==> (#[trigger] layers[k]).len() == topology[k + 1].neurons
    &&& forall|k: int, j: int|
        0 <= k < layers.len() && 0 <= j < layers[k].len() ==> (#[trigger] layers[k][j]).weights.len()
            == topology[k].neurons
}

/// Whether a network of these layers takes `width` inputs: every neuron of
/// the first layer has `width` weights, and every neuron of a later layer
/// has one weight per neuron of the layer before it.
pub open spec fn accepts<T>(layers: Seq<Seq<NeuronView<T>>>, width: nat) -> bool {
    &&& forall|j: int|
        0 < layers.len() && 0 <= j < layers[0].len() ==> (#[trigger] layers[0][j]).weights.len()
            == width
    &&& forall|k: int, j: int|
        0 < k < layers.len() && 0 <= j < layers[k].len() ==> (#[trigger] layers[k][j]).weights.len()
            == layers[k - 1].len()
}

/// Whether `output` is what `activation` may give for `neuron` on `inputs`.
pub open spec fn neuron_fires<T, F: Fn(T, &Vec<T>, &Vec<T>) -> T>(
    activation: F,
    neuron: NeuronView<T>,
    inputs: Seq<T>,
    output: T,
) -> bool {
    exists|weights: Vec<T>, signals: Vec<T>|
        weights@ == neuron.weights && signals@ == inputs && #[trigger] call_ensures(
            activation,
            (neuron.bias, &weights, &signals),
            output,
        )
}

/// Whether `outputs` holds, neuron by neuron, what `activation` may give
/// for the neurons of `layer` on `inputs`.
pub open spec fn layer_fires<T, F: Fn(T, &Vec<T>, &Vec<T>) -> T>(
    activation: F,
    layer: Seq<NeuronView<T>>,
    inputs: Seq<T>,
    outputs: Seq<T>,
) -> bool {
    &&& outputs.len() == layer.len()
    &&& forall|j: int|
        0 <= j < layer.len() ==> neuron_fires(activation, #[trigger] layer[j], inputs, outputs[j])
}

/// Whether `outputs` is what `layers` may give on `inputs`: the first layer
/// reads `inputs`, every later layer reads what the layer before it gave,
/// and `outputs` is what the last layer gave.
pub open spec fn propagates<T, F: Fn(T, &Vec<T>, &Vec<T>) -> T>(
    activation: F,
    layers: Seq<Seq<NeuronView<T>>>,
    inputs: Seq<T>,
    outputs: Seq<T>,
) -> bool
    decreases layers.len(),
{
    if layers.len() == 0 {
        outputs == inputs
    } else {
        exists|signals: Seq<T>|
            propagates(activation, layers.drop_last(), inputs, signals) && #[trigger] layer_fires(
                activation,
                layers.last(),
                signals,
                outputs,
            )
    }
}

/// Whether `activation` is a function of the neuron and its inputs: it
/// gives one value at most for a bias, some weights and some inputs.
pub open spec fn fires_as_a_function<T, F: Fn(T, &Vec<T>, &Vec<T>) -> T>(activation: F) -> bool {
    forall|
        bias: T,
        weights: Vec<T>,
        signals: Vec<T>,
        others: Vec<T>,
        inputs: Vec<T>,
        output: T,
        other: T,
    |
        #![trigger
            call_ensures(activation, (bias, &weights, &signals), output),
            call_ensures(activation, (bias, &others, &inputs), other)]
        weights@ == others@ && signals@ == inputs@ && call_ensures(
            activation,
            (bias, &weights, &signals),
            output,
        ) && call_ensures(activation, (bias, &others, &inputs), other) ==> output == other
}

/// A network whose neurons fire as a function gives one answer at most:
/// what it makes of some inputs is determined by them.
pub proof fn lemma_propagates_as_a_function<T, F: Fn(T, &Vec<T>, &Vec<T>) -> T>(
    activation: F,
    layers: Seq<Seq<NeuronView<T>>>,
    inputs: Seq<T>,
    outputs: Seq<T>,
    others: Seq<T>,
)
    requires
        fires_as_a_function(activation),
        propagates(activation, layers, inputs, outputs),
        propagates(activation, layers, inputs, others),
    ensures
        outputs == others,
    decreases layers.len(),
{
    if layers.len() > 0 {
        let signals = choose|signals: Seq<T>|
            propagates(activation, layers.drop_last(), inputs, signals) && #[trigger] layer_fires(
                activation,
                layers.last(),
                signals,
                outputs,
            );
        let second = choose|second: Seq<T>|
            propagates(activation, layers.drop_last(), inputs, second) && #[trigger] layer_fires(
                activation,
                layers.last(),
                second,
                others,
            );
        lemma_propagates_as_a_function(activation, layers.drop_last(), inputs, signals, second);
        let layer = layers.last();
        assert forall|j: int| 0 <= j < layer.len() implies outputs[j] == others[j] by {
            assert(neuron_fires(activation, layer[j], signals, outputs[j]));
            assert(neuron_fires(activation, layer[j], signals, others[j]));
        }
        assert(outputs =~= others);
    }
}

/// Whether `draw` may give `gene`.
pub open spec fn drawn<T, G: Fn(&mut ChaCha8Rng) -> T>(draw: G, gene: T) -> bool {
    exists|rng: &mut ChaCha8Rng| #[trigger] call_ensures(draw, (rng,), gene)
}

/// A neuron: a bias and one weight per input.
struct Neuron<T> {
    bias: T,
    weights: Vec<T>,
}

/// A layer: neurons that all read the same inputs.
struct Layer<T> {
    neurons: Vec<Neuron<T>>,
}

/// A feed-forward network: layers, each fed by the one before.
pub struct Network<T> {
    layers: Vec<Layer<T>>,
}

impl<T> View for Neuron<T> {
    type V = NeuronView<T>;

    closed spec fn view(&self) -> NeuronView<T> {
        NeuronView { bias: self.bias, weights: self.weights@ }
    }
}

impl<T> View for Layer<T> {
    type V = Seq<NeuronView<T>>;

    closed spec fn view(&self) -> Seq<NeuronView<T>> {
        Seq::new(self.neurons@.len(), |j: int| self.neurons@[j]@)
    }
}

impl<T> View for Network<T> {
    type V = Seq<Seq<NeuronView<T>>>;

    closed spec fn view(&self) -> Seq<Seq<NeuronView<T>>> {
        Seq::new(self.layers@.len(), |k: int| self.layers@[k]@)
    }
}

/// The genes before a layer are no more than those before a later one.
pub proof fn lemma_genes_before_monotone(topology: Seq<LayerTopology>, i: int, k: int)
    requires
        0 <= i <= k < topology.len(),
    ensures
        0 <= genes_before(topology, i) <= genes_before(topology, k),
    decreases k,
{
    if k > 0 {
        if i < k {
            lemma_genes_before_monotone(topology, i, k - 1);
        } else {
            lemma_genes_before_monotone(topology, i - 1, k - 1);
        }
        assert(layer_genes(topology, k - 1) >= 0) by (nonlinear_arith)
            requires
                topology[k].neurons >= 0,
                topology[k - 1].neurons >= 0,
                layer_genes(topology, k - 1) == topology[k].neurons * (topology[k - 1].neurons
                    + 1),
        ;
    }
}

/// Neuron `j` of a layer ends where neuron `j + 1` starts, and the last one
/// ends where the layer does.
proof fn lemma_neuron_span(inputs: int, neurons: int, j: int)
    requires
        0 <= inputs,
        0 <= j < neurons,
    ensures
        0 <= j * (inputs + 1),
        (j + 1) * (inputs + 1) == j * (inputs + 1) + inputs + 1,
        (j + 1) * (inputs + 1) <= neurons * (inputs + 1),
{
    assert(0 <= j * (inputs + 1)) by (nonlinear_arith)
        requires
            0 <= inputs,
            0 <= j,
    ;
    assert((j + 1) * (inputs + 1) == j * (inputs + 1) + inputs + 1) by (nonlinear_arith);
    assert((j + 1) * (inputs + 1) <= neurons * (inputs + 1)) by (nonlinear_arith)
        requires
            0 <= inputs,
            j + 1 <= neurons,
    ;
}

/// The end of layer `k` is the start of layer `k + 1`, and no layer ends
/// behind the last gene.
proof fn lemma_layer_span(topology: Seq<LayerTopology>, k: int)
    requires
        0 <= k < topology.len() - 1,
    ensures
        0 <= genes_before(topology, k),
        genes_before(topology, k + 1) == genes_before(topology, k) + topology[k + 1].neurons * (
        topology[k].neurons + 1),
        genes_before(topology, k + 1) <= weight_count(topology),
{
    lemma_genes_before_monotone(topology, 0, k);
    lemma_genes_before_monotone(topology, k + 1, topology.len() - 1);
}

/// A network of a given topology takes as many inputs as the topology's
/// first width says.
pub proof fn lemma_shaped_accepts<T>(layers: Seq<Seq<NeuronView<T>>>, topology: Seq<LayerTopology>)
    requires
        shaped(layers, topology),
    ensures
        accepts(layers, topology[0].neurons as nat),
{
}

/// A network read from enough genes has the topology it was read for.
pub proof fn lemma_decode_shaped<T>(topology: Seq<LayerTopology>, genes: Seq<T>)
    requires
        topology.len() >= 1,
        genes.len() >= weight_count(topology),
    ensures
        shaped(decode(topology, genes), topology),
{
    let layers = decode(topology, genes);
    assert forall|k: int, j: int| 0 <= k < layers.len() && 0 <= j < layers[k].len() implies (
    #[trigger] layers[k][j]).weights.len() == topology[k].neurons by {
        lemma_layer_span(topology, k);
        lemma_neuron_span(topology[k].neurons as int, topology[k + 1].neurons as int, j);
    }
}

/// The genes of a layer that was read from `genes` are the genes it was
/// read from.
proof fn lemma_flatten_decoded_layer<T>(genes: Seq<T>, start: int, inputs: int, neurons: int)
    requires
        0 <= start,
        0 <= inputs,
        0 <= neurons,
        start + neurons * (inputs + 1) <= genes.len(),
    ensures
        flatten_layer(decode_layer(genes, start, inputs, neurons)) == genes.subrange(
            start,
            start + neurons * (inputs + 1),
        ),
    decreases neurons,
{
    let layer = decode_layer(genes, start, inputs, neurons);
    if neurons == 0 {
        assert(neurons * (inputs + 1) == 0) by (nonlinear_arith)
            requires
                neurons == 0,
        ;
        assert(flatten_layer(layer) =~= genes.subrange(start, start + neurons * (inputs + 1)));
    } else {
        lemma_neuron_span(inputs, neurons, neurons - 1);
        lemma_flatten_decoded_layer(genes, start, inputs, neurons - 1);
        assert(layer.drop_last() =~= decode_layer(genes, start, inputs, neurons - 1));
        let at = start + (neurons - 1) * (inputs + 1);
        assert(flatten_neuron(layer.last()) =~= genes.subrange(at, at + inputs + 1));
        assert(genes.subrange(start, at) + genes.subrange(at, at + inputs + 1) =~= genes.subrange(
            start,
            start + neurons * (inputs + 1),
        ));
    }
}

/// The genes of the first `k` layers of a network that was read from
/// `genes` are the genes before layer `k`.
proof fn lemma_flatten_decoded_prefix<T>(topology: Seq<LayerTopology>, genes: Seq<T>, k: int)
    requires
        0 <= k <= topology.len() - 1,
        genes.len() >= weight_count(topology),
    ensures
        0 <= genes_before(topology, k) <= genes.len(),
        flatten(decode(topology, genes).take(k)) == genes.subrange(0, genes_before(topology, k)),
    decreases k,
{
    let layers = decode(topology, genes);
    lemma_genes_before_monotone(topology, k, topology.len() - 1);
    if k == 0 {
        assert(flatten(layers.take(k)) =~= genes.subrange(0, genes_before(topology, k)));
    } else {
        lemma_flatten_decoded_prefix(topology, genes, k - 1);
        lemma_layer_span(topology, k - 1);
        let start = genes_before(topology, k - 1);
        let inputs = topology[k - 1].neurons as int;
        let neurons = topology[k].neurons as int;
        lemma_flatten_decoded_layer(genes, start, inputs, neurons);
        assert(layers.take(k).drop_last() =~= layers.take(k - 1));
        assert(layers.take(k).last() == decode_layer(genes, start, inputs, neurons));
        assert(genes.subrange(0, start) + genes.subrange(start, start + neurons * (inputs + 1))
            =~= genes.subrange(0, genes_before(topology, k)));
    }
}

/// Reading a network from genes loses nothing: the genes of the network
/// that `decode` builds from as many genes as the topology takes are those
/// genes, in order.
pub proof fn lemma_flatten_decode<T>(topology: Seq<LayerTopology>, genes: Seq<T>)
    requires
        topology.len() >= 1,
        genes.len() == weight_count(topology),
    ensures
        flatten(decode(topology, genes)) == genes,
{
    let layers = decode(topology, genes);
    lemma_flatten_decoded_prefix(topology, genes, topology.len() - 1);
    assert(layers.take(topology.len() - 1) =~= layers);
    assert(genes.subrange(0, genes.len() as int) =~= genes);
}

/// A layer whose genes stand in `genes` at `start` is the layer that is
/// read from there.
proof fn lemma_decode_flattened_layer<T>(
    genes: Seq<T>,
    start: int,
    layer: Seq<NeuronView<T>>,
    inputs: int,
)
    requires
        0 <= start,
        0 <= inputs,
        forall|j: int| 0 <= j < layer.len() ==> (#[trigger] layer[j]).weights.len() == inputs,
        start + flatten_layer(layer).len() <= genes.len(),
        genes.subrange(start, start + flatten_layer(layer).len()) == flatten_layer(layer),
    ensures
        flatten_layer(layer).len() == layer.len() * (inputs + 1),
        decode_layer(genes, start, inputs, layer.len() as int) == layer,
    decreases layer.len(),
{
    let flat = flatten_layer(layer);
    if layer.len() == 0 {
        assert(decode_layer(genes, start, inputs, layer.len() as int) =~= layer);
    } else {
        let n = layer.len() as int;
        let front = layer.drop_last();
        let front_flat = flatten_layer(front);
        lemma_neuron_span(inputs, n, n - 1);
        assert(flat == front_flat + flatten_neuron(layer.last()));
        assert(genes.subrange(start, start + front_flat.len()) =~= front_flat) by {
            assert(genes.subrange(start, start + front_flat.len()) =~= flat.subrange(
                0,
                front_flat.len() as int,
            ));
        }
        lemma_decode_flattened_layer(genes, start, front, inputs);
        let at = start + (n - 1) * (inputs + 1);
        let read = decode_layer(genes, start, inputs, n);
        assert(read[n - 1].bias == layer.last().bias) by {
            assert(genes[at] == genes.subrange(start, start + flat.len())[at - start]);
        }
        assert(read[n - 1].weights =~= layer.last().weights) by {
            assert forall|i: int| 0 <= i < inputs implies read[n - 1].weights[i]
                == layer.last().weights[i] by {
                assert(genes[at + 1 + i] == genes.subrange(start, start + flat.len())[at + 1 + i
                    - start]);
            }
        }
        assert(read =~= layer) by {
            assert forall|j: int| 0 <= j < n implies read[j] == layer[j] by {
                if j < n - 1 {
                    assert(read[j] == decode_layer(genes, start, inputs, n - 1)[j]);
                    assert(front[j] == layer[j]);
                }
            }
        }
    }
}

/// The first `k` layers of a network whose genes `genes` starts with are
/// the layers that are read from `genes`.
proof fn lemma_decode_flattened_prefix<T>(
    topology: Seq<LayerTopology>,
    genes: Seq<T>,
    layers: Seq<Seq<NeuronView<T>>>,
    k: int,
)
    requires
        shaped(layers, topology),
        0 <= k <= layers.len(),
        flatten(layers.take(k)).len() <= genes.len(),
        genes.subrange(0, flatten(layers.take(k)).len() as int) == flatten(layers.take(k)),
    ensures
        flatten(layers.take(k)).len() == genes_before(topology, k),
        forall|i: int|
            0 <= i < k ==> decode_layer(
                genes,
                genes_before(topology, i),
                topology[i].neurons as int,
                topology[i + 1].neurons as int,
            ) == #[trigger] layers[i],
    decreases k,
{
    if k > 0 {
        let flat = flatten(layers.take(k));
        let front_flat = flatten(layers.take(k - 1));
        let layer = layers[k - 1];
        assert(layers.take(k).drop_last() =~= layers.take(k - 1));
        assert(layers.take(k).last() == layer);
        assert(flat == front_flat + flatten_layer(layer));
        assert(genes.subrange(0, front_flat.len() as int) =~= front_flat) by {
            assert(genes.subrange(0, front_flat.len() as int) =~= flat.subrange(
                0,
                front_flat.len() as int,
            ));
        }
        lemma_decode_flattened_prefix(topology, genes, layers, k - 1);
        let start = genes_before(topology, k - 1);
        assert(genes.subrange(start, start + flatten_layer(layer).len()) =~= flatten_layer(layer))
            by {
            assert forall|i: int| 0 <= i < flatten_layer(layer).len() implies genes[start + i]
                == flatten_layer(layer)[i] by {
                assert(genes[start + i] == genes.subrange(0, flat.len() as int)[start + i]);
            }
        }
        lemma_decode_flattened_layer(genes, start, layer, topology[k - 1].neurons as int);
    }
}

/// Reading back what was written restores the network: a network of the
/// given topology is the one that `decode` builds from its own genes, and
/// it has as many genes as the topology takes.
pub proof fn lemma_decode_flatten<T>(topology: Seq<LayerTopology>, layers: Seq<Seq<NeuronView<T>>>)
    requires
        shaped(layers, topology),
    ensures
        flatten(layers).len() == weight_count(topology),
        decode(topology, flatten(layers)) == layers,
        flatten(decode(topology, flatten(layers))) == flatten(layers),
{
    let genes = flatten(layers);
    assert(layers.take(layers.len() as int) =~= layers);
    assert(genes.subrange(0, genes.len() as int) =~= genes);
    lemma_decode_flattened_prefix(topology, genes, layers, layers.len() as int);
    assert(decode(topology, genes) =~= layers);
}

impl<T: Copy> Neuron<T> {
    /// Appends the genes of this neuron to `genes`.
    fn write(&self, genes: &mut Vec<T>)
        ensures
            final(genes)@ == old(genes)@ + flatten_neuron(self@),
    {
        genes.push(self.bias);
        let mut i: usize = 0;
        while i < self.weights.len()
            invariant
                0 <= i <= self.weights@.len(),
                genes@ =~= old(genes)@ + seq![self.bias] + self.weights@.take(i as int),
            decreases self.weights@.len() - i,
        {
            genes.push(self.weights[i]);
            i += 1;
        }
        proof {
            assert(self.weights@.take(self.weights@.len() as int) =~= self.weights@);
            assert(genes@ =~= old(genes)@ + flatten_neuron(self@));
        }
    }

    /// Reads a neuron with `inputs` weights from `genes` at `start`.
    fn from_weights(inputs: usize, genes: &Vec<T>, start: usize) -> (neuron: Self)
        requires
            start + 1 + inputs <= genes@.len(),
        ensures
            neuron@ == decode_neuron(genes@, start as int, inputs as int),
    {
        let bias = genes[start];
        let given: usize = genes.len();
        let mut weights: Vec<T> = Vec::new();
        let mut i: usize = 0;
        while i < inputs
            invariant
                0 <= i <= inputs,
                start + 1 + inputs <= genes@.len() == given,
                weights@ =~= genes@.subrange(start + 1, start + 1 + i),
            decreases inputs - i,
        {
            weights.push(genes[start + 1 + i]);
            i += 1;
        }
        Neuron { bias, weights }
    }
}

impl<T: Copy> Layer<T> {
    /// Appends the genes of this layer to `genes`.
    fn write(&self, genes: &mut Vec<T>)
        ensures
            final(genes)@ == old(genes)@ + flatten_layer(self@),
    {
        let mut j: usize = 0;
        while j < self.neurons.len()
            invariant
                0 <= j <= self.neurons@.len(),
                genes@ == old(genes)@ + flatten_layer(self@.take(j as int)),
            decreases self.neurons@.len() - j,
        {
            proof {
                assert(self@.take(j + 1).drop_last() =~= self@.take(j as int));
                assert(old(genes)@ + flatten_layer(self@.take(j as int)) + flatten_neuron(
                    self.neurons@[j as int]@,
                ) =~= old(genes)@ + flatten_layer(self@.take(j + 1)));
            }
            self.neurons[j].write(genes);
            j += 1;
        }
        proof {
            assert(self@.take(self.neurons@.len() as int) =~= self@);
        }
    }

    /// What the neurons of this layer give on `inputs`, in neuron order.
    fn propogate<F: Fn(T, &Vec<T>, &Vec<T>) -> T>(
        &self,
        inputs: &Vec<T>,
        activation: &F,
    ) -> (outputs: Vec<T>)
        requires
            forall|j: int|
                0 <= j < self@.len() ==> (#[trigger] self@[j]).weights.len() == inputs@.len(),
            forall|bias: T, weights: &Vec<T>, signals: &Vec<T>|
                weights@.len() == signals@.len() ==> call_requires(
                    *activation,
                    (bias, weights, signals),
                ),
        ensures
            layer_fires(*activation, self@, inputs@, outputs@),
    {
        let mut outputs: Vec<T> = Vec::new();
        let mut j: usize = 0;
        while j < self.neurons.len()
            invariant
                0 <= j <= self.neurons@.len(),
                forall|j: int|
                    0 <= j < self@.len() ==> (#[trigger] self@[j]).weights.len() == inputs@.len(),
                forall|bias: T, weights: &Vec<T>, signals: &Vec<T>|
                    weights@.len() == signals@.len() ==> call_requires(
                        *activation,
                        (bias, weights, signals),
                    ),
                outputs@.len() == j,
                forall|i: int|
                    0 <= i < j ==> neuron_fires(
                        *activation,
                        #[trigger] self@[i],
                        inputs@,
                        outputs@[i],
                    ),
            decreases self.neurons@.len() - j,
        {
            let neuron = &self.neurons[j];
            assert(self@[j as int] == neuron@);
            let output = activation(neuron.bias, &neuron.weights, inputs);
            outputs.push(output);
            proof {
                let weights = neuron.weights;
                let signals = *inputs;
                assert(weights@ == self@[j as int].weights && signals@ == inputs@ && call_ensures(
                    *activation,
                    (self@[j as int].bias, &weights, &signals),
                    output,
                ));
                assert(neuron_fires(*activation, self@[j as int], inputs@, output));
            }
            j += 1;
        }
        outputs
    }

    /// Reads a layer of `neurons` neurons with `inputs` weights each from
    /// `genes` at `start`.
    fn from_weights(inputs: usize, neurons: usize, genes: &Vec<T>, start: usize) -> (read: (
        Self,
        usize,
    ))
        requires
            start + neurons * (inputs + 1) <= genes@.len(),
        ensures
            read.0@ =~= decode_layer(genes@, start as int, inputs as int, neurons as int),
            read.1 == start + neurons * (inputs + 1),
    {
        let given: usize = genes.len();
        let mut built: Vec<Neuron<T>> = Vec::new();
        let mut at: usize = start;
        let mut j: usize = 0;
        while j < neurons
            invariant
                0 <= j <= neurons,
                start + neurons * (inputs + 1) <= genes@.len() == given,
                at == start + j * (inputs + 1),
                built@.len() == j,
                forall|i: int|
                    0 <= i < j ==> (#[trigger] built@[i])@ == decode_neuron(
                        genes@,
                        start + i * (inputs + 1),
                        inputs as int,
                    ),
            decreases neurons - j,
        {
            proof {
                lemma_neuron_span(inputs as int, neurons as int, j as int);
            }
            built.push(Neuron::from_weights(inputs, genes, at));
            at = at + 1 + inputs;
            j += 1;
        }
        (Layer { neurons: built }, at)
    }
}

impl<T: Copy> Network<T> {
    /// Builds the network of the given topology from its genes: for every
    /// layer in turn, and every neuron of it in turn, the bias and then one
    /// weight per neuron of the layer before.
    pub fn from_weights(layers: &[LayerTopology], weights: Vec<T>) -> (network: Self)
        requires
            layers@.len() > 1,
            weights@.len() == weight_count(layers@),
        ensures
            network@ == decode(layers@, weights@),
            flatten(network@) == weights@,
            shaped(network@, layers@),
            accepts(network@, layers@[0].neurons as nat),
    {
        let last: usize = layers.len() - 1;
        let given: usize = weights.len();
        let mut built: Vec<Layer<T>> = Vec::new();
        let mut at: usize = 0;
        let mut k: usize = 0;
        while k < last
            invariant
                last == layers@.len() - 1,
                0 <= k <= last,
                given == weights@.len() == weight_count(layers@),
                at == genes_before(layers@, k as int),
                built@.len() == k,
                forall|i: int|
                    0 <= i < k ==> (#[trigger] built@[i])@ == decode_layer(
                        weights@,
                        genes_before(layers@, i),
                        layers@[i].neurons as int,
                        layers@[i + 1].neurons as int,
                    ),
            decreases last - k,
        {
            proof {
                lemma_layer_span(layers@, k as int);
            }
            let inputs = layers[k].neurons;
            let neurons = layers[k + 1].neurons;
            let (layer, end) = Layer::from_weights(inputs, neurons, &weights, at);
            built.push(layer);
            at = end;
            k += 1;
        }
        let network = Network { layers: built };
        proof {
            assert(network@ =~= decode(layers@, weights@));
            lemma_decode_shaped(layers@, weights@);
            lemma_flatten_decode(layers@, weights@);
            lemma_shaped_accepts(network@, layers@);
        }
        network
    }

    /// A network of the given topology whose genes are drawn by `draw`, one
    /// after the other in the order of the genes: for every layer in turn,
    /// and every neuron of it in turn, the bias and then the weights.
    pub fn random<G: Fn(&mut ChaCha8Rng) -> T>(
        rng: &mut ChaCha8Rng,
        layers: &[LayerTopology],
        draw: &G,
    ) -> (network: Self)
        requires
            layers@.len() > 1,
            weight_count(layers@) <= usize::MAX,
            forall|r: &mut ChaCha8Rng| call_requires(*draw, (r,)),
        ensures
            shaped(network@, layers@),
            accepts(network@, layers@[0].neurons as nat),
            forall|i: int|
                0 <= i < flatten(network@).len() ==> drawn(*draw, #[trigger] flatten(network@)[i]),
    {
        let count: usize = match Self::weight_count(layers) {
            Some(count) => count,
            None => {
                assert(false);
                0
            },
        };
        let mut genes: Vec<T> = Vec::new();
        let mut i: usize = 0;
        while i < count
            invariant
                0 <= i <= count,
                genes@.len() == i,
                forall|r: &mut ChaCha8Rng| call_requires(*draw, (r,)),
                forall|k: int| 0 <= k < i ==> drawn(*draw, #[trigger] genes@[k]),
            decreases count - i,
        {
            let gene = draw(rng);
            proof {
                assert(drawn(*draw, gene));
            }
            genes.push(gene);
            i += 1;
        }
        Self::from_weights(layers, genes)
    }

    /// Whether the network takes `width` inputs.
    pub fn takes_inputs(&self, width: usize) -> (takes: bool)
        ensures
            takes == accepts(self@, width as nat),
    {
        let mut before: usize = width;
        let mut k: usize = 0;
        while k < self.layers.len()
            invariant
                0 <= k <= self.layers@.len(),
                k == 0 ==> before == width,
                k > 0 ==> before == self@[k - 1].len(),
                accepts(self@.take(k as int), width as nat),
            decreases self.layers@.len() - k,
        {
            let layer = &self.layers[k];
            assert(self@[k as int] == layer@);
            let mut j: usize = 0;
            while j < layer.neurons.len()
                invariant
                    0 <= j <= layer.neurons@.len(),
                    0 <= k < self.layers@.len(),
                    self@[k as int] == layer@,
                    k == 0 ==> before == width,
                    k > 0 ==> before == self@[k - 1].len(),
                    forall|i: int| 0 <= i < j ==> (#[trigger] layer@[i]).weights.len() == before,
                decreases layer.neurons@.len() - j,
            {
                let neuron = &layer.neurons[j];
                assert(layer@[j as int] == neuron@);
                if neuron.weights.len() != before {
                    proof {
                        let at = if k == 0 {
                            width as int
                        } else {
                            self@[k - 1].len() as int
                        };
                        assert(self@[k as int][j as int].weights.len() != at);
                    }
                    return false;
                }
                j += 1;
            }
            proof {
                let seen = self@.take(k + 1);
                assert forall|a: int, b: int| 0 < a < seen.len() && 0 <= b < seen[a].len() implies (
                #[trigger] seen[a][b]).weights.len() == seen[a - 1].len() by {
                    if a < k {
                        assert(seen[a] == self@.take(k as int)[a]);
                        assert(seen[a - 1] == self@.take(k as int)[a - 1]);
                    }
                }
                assert forall|b: int| 0 < seen.len() && 0 <= b < seen[0].len() implies (
                #[trigger] seen[0][b]).weights.len() == width by {
                    if 0 < k {
                        assert(seen[0] == self@.take(k as int)[0]);
                    }
                }
            }
            before = layer.neurons.len();
            k += 1;
        }
        proof {
            assert(self@.take(self.layers@.len() as int) =~= self@);
        }
        true
    }

    /// Feeds `inputs` through the layers in turn: every neuron of the first
    /// layer is handed `inputs`, every neuron of a later layer what the
    /// layer before it gave, and the last layer's values are returned.
    ///
    /// What a neuron gives is up to `activation`, which is handed the
    /// neuron's bias, its weights and its inputs, always as many inputs as
    /// weights.
    pub fn propogate<F: Fn(T, &Vec<T>, &Vec<T>) -> T>(
        &self,
        inputs: Vec<T>,
        activation: &F,
    ) -> (outputs: Vec<T>)
        requires
            accepts(self@, inputs@.len()),
            forall|bias: T, weights: &Vec<T>, signals: &Vec<T>|
                weights@.len() == signals@.len() ==> call_requires(
                    *activation,
                    (bias, weights, signals),
                ),
        ensures
            propagates(*activation, self@, inputs@, outputs@),
            self@.len() > 0 ==> outputs@.len() == self@.last().len(),
    {
        let mut signals: Vec<T> = inputs;
        let mut k: usize = 0;
        while k < self.layers.len()
            invariant
                0 <= k <= self.layers@.len(),
                accepts(self@, inputs@.len()),
                forall|bias: T, weights: &Vec<T>, signals: &Vec<T>|
                    weights@.len() == signals@.len() ==> call_requires(
                        *activation,
                        (bias, weights, signals),
                    ),
                propagates(*activation, self@.take(k as int), inputs@, signals@),
                k == 0 ==> signals@ == inputs@,
                k > 0 ==> signals@.len() == self@[k - 1].len(),
            decreases self.layers@.len() - k,
        {
            let layer = &self.layers[k];
            assert(self@[k as int] == layer@);
            let ghost before = signals@;
            signals = layer.propogate(&signals, activation);
            proof {
                assert(self@.take(k + 1).drop_last() =~= self@.take(k as int));
                assert(self@.take(k + 1).last() == layer@);
                assert(propagates(*activation, self@.take(k + 1).drop_last(), inputs@, before));
                assert(layer_fires(*activation, self@.take(k + 1).last(), before, signals@));
            }
            k += 1;
        }
        proof {
            assert(self@.take(self.layers@.len() as int) =~= self@);
        }
        signals
    }

    /// The genes of this network: for every layer in turn, and every neuron
    /// of it in turn, the bias and then the weights in input order.
    pub fn weights(&self) -> (genes: Vec<T>)
        ensures
            genes@ == flatten(self@),
    {
        let mut genes: Vec<T> = Vec::new();
        let mut k: usize = 0;
        while k < self.layers.len()
            invariant
                0 <= k <= self.layers@.len(),
                genes@ == flatten(self@.take(k as int)),
            decreases self.layers@.len() - k,
        {
            proof {
                assert(self@.take(k + 1).drop_last() =~= self@.take(k as int));
            }
            self.layers[k].write(&mut genes);
            k += 1;
        }
        proof {
            assert(self@.take(self.layers@.len() as int) =~= self@);
        }
        genes
    }

    /// Builds the network of the given topology from its genes, or nothing
    /// where the topology has fewer than two layers or the genes are fewer
    /// or more than it takes.
    pub fn try_from_weights(layers: &[LayerTopology], weights: Vec<T>) -> (network: Option<Self>)
        ensures
            network is Some <==> layers@.len() > 1 && weights@.len() == weight_count(layers@),
            network is Some ==> {
                &&& network->0@ == decode(layers@, weights@)
                &&& flatten(network->0@) == weights@
                &&& shaped(network->0@, layers@)
                &&& accepts(network->0@, layers@[0].neurons as nat)
            },
    {
        if layers.len() < 2 {
            return None;
        }
        let given: usize = weights.len();
        match Self::weight_count(layers) {
            Some(count) => {
                if given == count {
                    Some(Self::from_weights(layers, weights))
                } else {
                    None
                }
            },
            None => None,
        }
    }

    /// Number of genes that encode a network of the given topology, or
    /// `None` where that number does not fit the machine's word.
    pub fn weight_count(layers: &[LayerTopology]) -> (count: Option<usize>)
        ensures
            match count {
                Some(n) => n == weight_count(layers@),
                None => weight_count(layers@) > usize::MAX,
            },
    {
        if layers.len() < 2 {
            return Some(0);
        }
        let last: usize = layers.len() - 1;
        let mut total: usize = 0;
        let mut k: usize = 0;
        while k < last
            invariant
                last == layers@.len() - 1,
                0 <= k <= last,
                total == genes_before(layers@, k as int),
            decreases last - k,
        {
            proof {
                lemma_genes_before_monotone(layers@, k + 1, last as int);
            }
            let per_neuron = match layers[k].neurons.checked_add(1) {
                Some(n) => n,
                None => {
                    // Only an empty layer can follow one of the largest width.
                    if layers[k + 1].neurons == 0 {
                        assert(layer_genes(layers@, k as int) == 0) by (nonlinear_arith)
                            requires
                                layers@[k + 1].neurons == 0,
                                layer_genes(layers@, k as int) == layers@[k + 1].neurons * (
                                layers@[k as int].neurons + 1),
                        ;
                        k += 1;
                        continue ;
                    }
                    proof {
                        assert(layer_genes(layers@, k as int) > usize::MAX) by (nonlinear_arith)
                            requires
                                layers@[k + 1].neurons >= 1,
                                layers@[k as int].neurons + 1 > usize::MAX,
                                layer_genes(layers@, k as int) == layers@[k + 1].neurons * (
                                layers@[k as int].neurons + 1),
                        ;
                    }
                    return None;
                },
            };
            let in_layer = match layers[k + 1].neurons.checked_mul(per_neuron) {
                Some(n) => n,
                None => {
                    return None;
                },
            };
            total = match total.checked_add(in_layer) {
                Some(n) => n,
                None => {
                    return None;
                },
            };
            k += 1;
        }
        Some(total)
    }
}

} // verus!

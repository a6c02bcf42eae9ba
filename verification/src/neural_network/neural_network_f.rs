//! The network: an ordered stack of layers, each fed by the one before.

use vstd::prelude::*;
use vstd::slice::slice_to_vec;
use crate::scalar::Double;
use crate::game::controller::{decode_output, decoded_output, PlayerDirection};
use crate::neural_network::layers::{Layer, LayerView};
use crate::neural_network::neuron::{
    accepts_neurons, deterministic, evaluates, lemma_updated_genes_concat, updated_genes, ActivationFunction,
};

verus! {

/// Why a network could not be built or read out.
#[derive(Clone, Copy, Debug, PartialEq, Eq, Structural)]
pub enum NetworkError {
    /// The layer sizes and the activations are not equally many.
    LengthMismatch,
    /// The network has no layer.
    NoLayers,
}

impl NetworkError {
    /// A sentence that describes the error.
    pub fn message(&self) -> (text: &'static str)
        ensures
            text@ == (match *self {
                NetworkError::LengthMismatch => "layer sizes and activation functions must be equally many"@,
                NetworkError::NoLayers => "the network has no layers"@,
            }),
    {
        match self {
            NetworkError::LengthMismatch => "layer sizes and activation functions must be equally many",
            NetworkError::NoLayers => "the network has no layers",
        }
    }
}

/// A feed-forward network. `inputs` is the vector that was fed last, kept
/// for whoever wants to display it.
#[derive(Debug)]
pub struct NeuralNetwork {
    pub inputs: Vec<Double>,
    pub layers: Vec<Layer>,
}

/// The mathematical content of a [`NeuralNetwork`].
pub struct NetworkView {
    pub inputs: Seq<Double>,
    pub layers: Seq<LayerView>,
}

impl View for NeuralNetwork {
    type V = NetworkView;

    open spec fn view(&self) -> NetworkView {
        NetworkView {
            inputs: self.inputs@,
            layers: Seq::new(self.layers@.len(), |i: int| self.layers@[i]@),
        }
    }
}

impl NetworkView {
    /// How many inputs layer `i` gets when the network is fed `input_len`
    /// values: the size of the layer before it, or `input_len` for the
    /// first layer.
    pub open spec fn width_into(self, i: int, input_len: nat) -> nat {
        if i == 0 {
            input_len
        } else {
            self.layers[i - 1].neurons.len()
        }
    }

    /// Every neuron has as many weights as its layer gets inputs, when the
    /// network is fed `input_len` values.
    pub open spec fn shaped_for(self, input_len: nat) -> bool {
        forall|i: int|
            0 <= i < self.layers.len() ==> (#[trigger] self.layers[i]).takes(self.width_into(i, input_len))
    }

    /// The shape invariant of a network: it is shaped for as many inputs as
    /// it holds.
    pub open spec fn well_formed(self) -> bool {
        self.shaped_for(self.inputs.len())
    }

    /// What layer `i` is fed: the network's inputs, or the outputs of the
    /// layer before it.
    pub open spec fn input_into(self, i: int) -> Seq<Double> {
        if i == 0 {
            self.inputs
        } else {
            self.layers[i - 1].outputs()
        }
    }

    /// `self` is `before` after feeding `inputs` with `kernel`: the inputs
    /// are stored verbatim, and every layer was evaluated on what the layer
    /// before it put out.
    pub open spec fn fed_from<K: Fn(&[Double], Double, ActivationFunction, &[Double]) -> Double>(
        self,
        before: NetworkView,
        inputs: Seq<Double>,
        kernel: &K,
    ) -> bool {
        &&& self.inputs == inputs
        &&& self.layers.len() == before.layers.len()
        &&& forall|i: int|
            0 <= i < before.layers.len() ==> (#[trigger] self.layers[i]).fed_from(
                before.layers[i],
                self.input_into(i),
                kernel,
            )
    }

    /// Every weight and bias, in one order-stable sequence: layer by layer,
    /// neuron by neuron, a neuron's weights and then its bias.
    pub open spec fn genes(self) -> Seq<Double> {
        self.layers.map_values(|l: LayerView| l.genes()).flatten()
    }

    /// `self` differs from `other` at most in the values of weights and
    /// biases.
    pub open spec fn same_frame(self, other: NetworkView) -> bool {
        &&& self.inputs == other.inputs
        &&& self.layers.len() == other.layers.len()
        &&& forall|i: int| 0 <= i < self.layers.len() ==> (#[trigger] self.layers[i]).same_frame(other.layers[i])
    }

    /// The network cut down to its first `i` layers.
    pub open spec fn first(self, i: int) -> NetworkView {
        NetworkView { inputs: self.inputs, layers: self.layers.take(i) }
    }
}

/// The genes of the first `i + 1` layers are the genes of the first `i`,
/// followed by those of layer `i`.
pub proof fn lemma_network_genes_step(network: NetworkView, i: int)
    requires
        0 <= i < network.layers.len(),
    ensures
        network.first(i + 1).genes() == network.first(i).genes() + network.layers[i].genes(),
        network.first(network.layers.len() as int) == network,
        network.first(0).genes() == Seq::<Double>::empty(),
{
    let f = |l: LayerView| l.genes();
    assert(network.layers.take(i + 1).map_values(f) =~= network.layers.take(i).map_values(f).push(
        network.layers[i].genes(),
    ));
    network.layers.take(i).map_values(f).lemma_flatten_push(network.layers[i].genes());
    assert(network.layers.take(network.layers.len() as int) =~= network.layers);
    assert(network.layers.take(0).map_values(f) =~= Seq::<Seq<Double>>::empty());
}

proof fn lemma_fed_layers_agree<K: Fn(&[Double], Double, ActivationFunction, &[Double]) -> Double>(
    before: NetworkView,
    first: NetworkView,
    second: NetworkView,
    inputs: Seq<Double>,
    kernel: &K,
    upto: int,
)
    requires
        deterministic(kernel),
        first.fed_from(before, inputs, kernel),
        second.fed_from(before, inputs, kernel),
        0 <= upto <= before.layers.len(),
    ensures
        forall|i: int| 0 <= i < upto ==> #[trigger] first.layers[i] == second.layers[i],
    decreases upto,
{
    if upto > 0 {
        lemma_fed_layers_agree(before, first, second, inputs, kernel, upto - 1);
        let i = upto - 1;
        assert(first.input_into(i) == second.input_into(i)) by {
            if i > 0 {
                assert(first.layers[i - 1] == second.layers[i - 1]);
            }
        }
        assert(first.layers[i].fed_from(before.layers[i], first.input_into(i), kernel));
        assert(second.layers[i].fed_from(before.layers[i], second.input_into(i), kernel));
        assert forall|j: int| 0 <= j < before.layers[i].neurons.len() implies first.layers[i].neurons[j]
            == second.layers[i].neurons[j] by {
            let n = before.layers[i].neurons[j];
            assert(evaluates(
                kernel,
                n.weights,
                n.bias,
                n.activation_function,
                first.input_into(i),
                first.layers[i].neurons[j].output,
            ));
            assert(evaluates(
                kernel,
                n.weights,
                n.bias,
                n.activation_function,
                first.input_into(i),
                second.layers[i].neurons[j].output,
            ));
        }
        assert(first.layers[i].neurons =~= second.layers[i].neurons);
    }
}

/// Feeding is deterministic. With a kernel that is a function of what it is
/// given, a network and an input vector determine the network after the
/// feed, and with it the outputs.
pub proof fn lemma_feed_is_deterministic<K: Fn(&[Double], Double, ActivationFunction, &[Double]) -> Double>(
    before: NetworkView,
    first: NetworkView,
    second: NetworkView,
    inputs: Seq<Double>,
    kernel: &K,
)
    requires
        deterministic(kernel),
        first.fed_from(before, inputs, kernel),
        second.fed_from(before, inputs, kernel),
    ensures
        first == second,
{
    lemma_fed_layers_agree(before, first, second, inputs, kernel, before.layers.len() as int);
    assert(first.layers =~= second.layers);
}

/// Feeding the same vector twice yields the same outputs twice: the second
/// feed leaves the network as the first one left it.
pub proof fn lemma_feed_twice<K: Fn(&[Double], Double, ActivationFunction, &[Double]) -> Double>(
    before: NetworkView,
    once: NetworkView,
    twice: NetworkView,
    inputs: Seq<Double>,
    kernel: &K,
)
    requires
        deterministic(kernel),
        once.fed_from(before, inputs, kernel),
        twice.fed_from(once, inputs, kernel),
    ensures
        twice == once,
{
    assert(once.fed_from(once, inputs, kernel)) by {
        assert forall|i: int| 0 <= i < once.layers.len() implies (#[trigger] once.layers[i]).fed_from(
            once.layers[i],
            once.input_into(i),
            kernel,
        ) by {
            assert(once.layers[i].fed_from(before.layers[i], once.input_into(i), kernel));
        }
    }
    lemma_feed_is_deterministic(once, once, twice, inputs, kernel);
}

impl Clone for NeuralNetwork {
    fn clone(&self) -> (copy: Self)
        ensures
            copy@ == self@,
    {
        let mut layers: Vec<Layer> = Vec::new();
        let n = self.layers.len();
        let mut i: usize = 0;
        while i < n
            invariant
                i <= n,
                n == self.layers@.len(),
                layers@.len() == i,
                forall|k: int| 0 <= k < i ==> (#[trigger] layers@[k])@ == self.layers@[k]@,
            decreases n - i,
        {
            layers.push(self.layers[i].clone());
            i += 1;
        }
        let copy = NeuralNetwork { inputs: self.inputs.clone(), layers };
        assert(copy@.layers =~= self@.layers);
        assert(copy@.inputs =~= self@.inputs);
        copy
    }
}

impl NeuralNetwork {
    /// Builds a network of `layers_sizes.len()` layers for `input_size`
    /// inputs. Layer `i` has `layers_sizes[i]` neurons with activation
    /// `activation_functions[i]`; each neuron has as many weights as the
    /// layer before it has neurons (`input_size` for the first layer).
    /// Weights and biases are values returned by `draw`; the stored inputs
    /// and all outputs are zero.
    ///
    /// Fails when the two lists differ in length, and when they are empty.
    pub fn new<D: Fn() -> Double>(
        input_size: usize,
        layers_sizes: &Vec<usize>,
        activation_functions: &Vec<ActivationFunction>,
        draw: &D,
    ) -> (result: Result<Self, NetworkError>)
        requires
            call_requires(draw, ()),
        ensures
            layers_sizes@.len() != activation_functions@.len() ==> result matches Err(
                NetworkError::LengthMismatch,
            ),
            layers_sizes@.len() == activation_functions@.len() && layers_sizes@.len() == 0
                ==> result matches Err(NetworkError::NoLayers),
            layers_sizes@.len() == activation_functions@.len() && layers_sizes@.len() > 0 ==> {
                &&& result matches Ok(network)
                &&& network@.built_from(input_size as nat, layers_sizes@, activation_functions@, draw)
                &&& network@.well_formed()
            },
    {
        if layers_sizes.len() != activation_functions.len() {
            return Err(NetworkError::LengthMismatch);
        }
        if layers_sizes.len() == 0 {
            return Err(NetworkError::NoLayers);
        }
        let mut inputs: Vec<Double> = Vec::new();
        let mut k: usize = 0;
        while k < input_size
            invariant
                k <= input_size,
                inputs@.len() == k,
                forall|j: int| 0 <= j < k ==> #[trigger] inputs@[j] == (Double { bits: 0 }),
            decreases input_size - k,
        {
            inputs.push(Double::zero());
            k += 1;
        }
        let n = layers_sizes.len();
        let mut layers: Vec<Layer> = Vec::new();
        let mut previous_size = input_size;
        let mut i: usize = 0;
        while i < n
            invariant
                i <= n,
                n == layers_sizes@.len(),
                n == activation_functions@.len(),
                layers@.len() == i,
                call_requires(draw, ()),
                previous_size == (if i == 0 {
                    input_size
                } else {
                    layers_sizes@[i - 1]
                }),
                forall|l: int|
                    0 <= l < i ==> (#[trigger] layers@[l])@.drawn(
                        layers_sizes@[l] as nat,
                        (if l == 0 {
                            input_size
                        } else {
                            layers_sizes@[l - 1]
                        }) as nat,
                        activation_functions@[l],
                        draw,
                    ),
            decreases n - i,
        {
            let size = layers_sizes[i];
            let layer = Layer::new(size, previous_size, activation_functions[i], draw);
            layers.push(layer);
            previous_size = size;
            i += 1;
        }
        let network = NeuralNetwork { inputs, layers };
        proof {
            assert(network@.inputs =~= Seq::new(input_size as nat, |j: int| Double { bits: 0 }));
            lemma_built_is_well_formed(network@, input_size as nat, layers_sizes@, activation_functions@, draw);
        }
        Ok(network)
    }

    /// The network that `model` describes; see [`NeuralNetwork::new`].
    pub fn from_model<D: Fn() -> Double>(model: &NeuralNetworkModel, draw: &D) -> (network: Self)
        requires
            call_requires(draw, ()),
            model.hidden_layers_sizes@.len() == model.activation_functions@.len(),
            model.hidden_layers_sizes@.len() > 0,
        ensures
            network@.built_from(
                model.input_layer_size as nat,
                model.hidden_layers_sizes@,
                model.activation_functions@,
                draw,
            ),
            network@.well_formed(),
    {
        NeuralNetwork::new(
            model.input_layer_size,
            &model.hidden_layers_sizes,
            &model.activation_functions,
            draw,
        ).unwrap()
    }

    /// Stores `inputs` verbatim, then evaluates the layers in order, each
    /// on the outputs of the one before, and returns the outputs of the
    /// last layer. A network without layers stores the inputs and fails.
    pub fn feed<K: Fn(&[Double], Double, ActivationFunction, &[Double]) -> Double>(
        &mut self,
        inputs: &[Double],
        kernel: &K,
    ) -> (result: Result<Vec<Double>, NetworkError>)
        requires
            old(self)@.shaped_for(inputs@.len()),
            accepts_neurons(kernel),
        ensures
            final(self)@.fed_from(old(self)@, inputs@, kernel),
            old(self)@.layers.len() == 0 ==> result matches Err(NetworkError::NoLayers),
            old(self)@.layers.len() > 0 ==> {
                &&& result matches Ok(outputs)
                &&& outputs@ == final(self)@.layers.last().outputs()
            },
    {
        self.inputs = slice_to_vec(inputs);
        let mut current_inputs: Vec<Double> = slice_to_vec(inputs);
        let n = self.layers.len();
        let mut i: usize = 0;
        while i < n
            invariant
                i <= n,
                n == old(self).layers@.len(),
                self.layers@.len() == n,
                self.inputs@ == inputs@,
                old(self)@.shaped_for(inputs@.len()),
                accepts_neurons(kernel),
                current_inputs@ == self@.input_into(i as int),
                forall|k: int| i <= k < n ==> (#[trigger] self.layers@[k])@ == old(self).layers@[k]@,
                forall|k: int|
                    0 <= k < i ==> (#[trigger] self.layers@[k])@.fed_from(
                        old(self).layers@[k]@,
                        self@.input_into(k),
                        kernel,
                    ),
            decreases n - i,
        {
            let ghost before = self@;
            assert(old(self)@.layers[i as int] == old(self).layers@[i as int]@);
            assert(old(self)@.layers[i as int].takes(old(self)@.width_into(i as int, inputs@.len())));
            assert(current_inputs@.len() == old(self)@.width_into(i as int, inputs@.len())) by {
                if i > 0 {
                    assert(self.layers@[i - 1]@.fed_from(
                        old(self).layers@[i - 1]@,
                        self@.input_into(i - 1),
                        kernel,
                    ));
                    assert(old(self)@.layers[i - 1] == old(self).layers@[i - 1]@);
                }
            }
            self.layers[i].feed(current_inputs.as_slice(), kernel);
            current_inputs = self.layers[i].get_outputs();
            proof {
                assert forall|k: int| 0 <= k <= i implies self@.input_into(k) == before.input_into(k) by {
                    if k > 0 {
                        assert(self@.layers[k - 1] == before.layers[k - 1]);
                    }
                }
            }
            i += 1;
        }
        proof {
            assert forall|k: int| 0 <= k < n implies (#[trigger] self@.layers[k]).fed_from(
                old(self)@.layers[k],
                self@.input_into(k),
                kernel,
            ) by {
                assert(self@.layers[k] == self.layers@[k]@);
                assert(old(self)@.layers[k] == old(self).layers@[k]@);
            }
        }
        if n == 0 {
            Err(NetworkError::NoLayers)
        } else {
            Ok(current_inputs)
        }
    }

    /// The decision of a network that steers a paddle. The four features
    /// (where the ball is relative to the paddle, and the ball's velocity)
    /// are fed through the network, and its three outputs are read as
    /// [`decoded_output`] says.
    pub fn get_input<K: Fn(&[Double], Double, ActivationFunction, &[Double]) -> Double>(
        &mut self,
        distance_x: Double,
        distance_y: Double,
        velocity_x: Double,
        velocity_y: Double,
        kernel: &K,
    ) -> (decision: (PlayerDirection, Double))
        requires
            old(self)@.shaped_for(4),
            old(self)@.layers.len() > 0,
            old(self)@.layers.last().neurons.len() >= 3,
            accepts_neurons(kernel),
        ensures
            final(self)@.fed_from(old(self)@, seq![distance_x, distance_y, velocity_x, velocity_y], kernel),
            decision == decoded_output(final(self)@.layers.last().outputs()),
    {
        let mut features: Vec<Double> = Vec::new();
        features.push(distance_x);
        features.push(distance_y);
        features.push(velocity_x);
        features.push(velocity_y);
        assert(features@ =~= seq![distance_x, distance_y, velocity_x, velocity_y]);
        let output = self.feed(features.as_slice(), kernel).unwrap();
        assert(self@.layers.last().fed_from(
            old(self)@.layers.last(),
            self@.input_into(self@.layers.len() - 1),
            kernel,
        ));
        decode_output(output.as_slice())
    }

    /// The outputs that the last layer holds.
    pub fn get_output(&self) -> (result: Result<Vec<Double>, NetworkError>)
        ensures
            self@.layers.len() == 0 ==> result matches Err(NetworkError::NoLayers),
            self@.layers.len() > 0 ==> {
                &&& result matches Ok(outputs)
                &&& outputs@ == self@.layers.last().outputs()
            },
    {
        let n = self.layers.len();
        if n == 0 {
            return Err(NetworkError::NoLayers);
        }
        let outputs = self.layers[n - 1].get_outputs();
        assert(self@.layers.last() == self.layers@[n - 1]@);
        Ok(outputs)
    }

    /// Every weight and bias of the network, in the order of
    /// [`NetworkView::genes`].
    pub fn all_weights(&self) -> (genes: Vec<Double>)
        ensures
            genes@ == self@.genes(),
    {
        let mut genes: Vec<Double> = Vec::new();
        let n = self.layers.len();
        let mut i: usize = 0;
        proof {
            if n > 0 {
                lemma_network_genes_step(self@, 0);
            } else {
                assert(self@.layers.map_values(|l: LayerView| l.genes()) =~= Seq::<Seq<Double>>::empty());
            }
        }
        while i < n
            invariant
                i <= n,
                n == self.layers@.len(),
                n > 0 ==> genes@ == self@.first(i as int).genes(),
                n == 0 ==> genes@ == self@.genes(),
            decreases n - i,
        {
            self.layers[i].append_genes(&mut genes);
            proof {
                assert(self@.layers[i as int] == self.layers@[i as int]@);
                lemma_network_genes_step(self@, i as int);
            }
            i += 1;
        }
        genes
    }

    /// Visits every weight and bias in the order of
    /// [`NetworkView::genes`] and replaces it by what `update` returns for
    /// it. Nothing else changes.
    pub fn all_weights_mut<F: Fn(Double) -> Double>(&mut self, update: &F)
        requires
            forall|g: Double| call_requires(update, (g,)),
        ensures
            final(self)@.same_frame(old(self)@),
            updated_genes(old(self)@.genes(), final(self)@.genes(), update),
    {
        let n = self.layers.len();
        let mut i: usize = 0;
        proof {
            if n > 0 {
                lemma_network_genes_step(old(self)@, 0);
                lemma_network_genes_step(self@, 0);
            }
        }
        while i < n
            invariant
                i <= n,
                n == old(self).layers@.len(),
                self.layers@.len() == n,
                self.inputs == old(self).inputs,
                forall|g: Double| call_requires(update, (g,)),
                forall|k: int| i <= k < n ==> (#[trigger] self.layers@[k])@ == old(self).layers@[k]@,
                forall|k: int| 0 <= k < i ==> (#[trigger] self.layers@[k])@.same_frame(old(self).layers@[k]@),
                n > 0 ==> updated_genes(old(self)@.first(i as int).genes(), self@.first(i as int).genes(), update),
            decreases n - i,
        {
            let ghost before = self@;
            self.layers[i].update_genes(update);
            proof {
                assert(self@.first(i as int).layers =~= before.first(i as int).layers);
                lemma_network_genes_step(old(self)@, i as int);
                lemma_network_genes_step(self@, i as int);
                assert(self@.layers[i as int] == self.layers@[i as int]@);
                assert(old(self)@.layers[i as int] == old(self).layers@[i as int]@);
                lemma_updated_genes_concat(
                    old(self)@.first(i as int).genes(),
                    self@.first(i as int).genes(),
                    old(self)@.layers[i as int].genes(),
                    self@.layers[i as int].genes(),
                    update,
                );
            }
            i += 1;
        }
        proof {
            if n > 0 {
                lemma_network_genes_step(old(self)@, n - 1);
                lemma_network_genes_step(self@, n - 1);
            } else {
                assert(self@.layers =~= old(self)@.layers);
            }
            assert forall|k: int| 0 <= k < n implies (#[trigger] self@.layers[k]).same_frame(old(self)@.layers[k]) by {
                assert(self@.layers[k] == self.layers@[k]@);
                assert(old(self)@.layers[k] == old(self).layers@[k]@);
            }
        }
    }

    /// The layers, for direct mutation.
    pub fn mut_layers(&mut self) -> (layers: &mut Vec<Layer>)
        ensures
            *layers == old(self).layers,
            final(self).layers == *final(layers),
            final(self).inputs == old(self).inputs,
    {
        &mut self.layers
    }
}

impl LayerView {
    /// A layer as [`Layer::new`] makes it: `size` neurons of `width`
    /// weights, all with `activation_function` and a zero output, every
    /// weight and bias a value returned by `draw`.
    pub open spec fn drawn<D: Fn() -> Double>(
        self,
        size: nat,
        width: nat,
        activation_function: ActivationFunction,
        draw: &D,
    ) -> bool {
        &&& self.neurons.len() == size
        &&& forall|j: int|
            0 <= j < size ==> {
                &&& (#[trigger] self.neurons[j]).weights.len() == width
                &&& self.neurons[j].activation_function == activation_function
                &&& self.neurons[j].output == (Double { bits: 0 })
                &&& call_ensures(draw, (), self.neurons[j].bias)
                &&& forall|k: int| 0 <= k < width ==> call_ensures(draw, (), #[trigger] self.neurons[j].weights[k])
            }
    }

}

impl NetworkView {
    /// A network as [`NeuralNetwork::new`] makes it.
    pub open spec fn built_from<D: Fn() -> Double>(
        self,
        input_size: nat,
        sizes: Seq<usize>,
        activations: Seq<ActivationFunction>,
        draw: &D,
    ) -> bool {
        &&& self.inputs == Seq::new(input_size, |j: int| Double { bits: 0 })
        &&& self.layers.len() == sizes.len()
        &&& forall|i: int|
            0 <= i < sizes.len() ==> (#[trigger] self.layers[i]).drawn(
                sizes[i] as nat,
                (if i == 0 {
                    input_size
                } else {
                    sizes[i - 1] as nat
                }),
                activations[i],
                draw,
            )
    }
}

/// A network as [`NeuralNetwork::new`] makes it has the requested shape:
/// layer `i` has `sizes[i]` neurons, and each of them has as many weights as
/// the layer before has neurons, or as the network has inputs. So it meets
/// the shape invariant.
pub proof fn lemma_built_is_well_formed<D: Fn() -> Double>(
    network: NetworkView,
    input_size: nat,
    sizes: Seq<usize>,
    activations: Seq<ActivationFunction>,
    draw: &D,
)
    requires
        network.built_from(input_size, sizes, activations, draw),
    ensures
        network.inputs.len() == input_size,
        network.layers.len() == sizes.len(),
        forall|i: int| 0 <= i < sizes.len() ==> (#[trigger] network.layers[i]).neurons.len() == sizes[i],
        forall|i: int, j: int|
            0 <= i < sizes.len() && 0 <= j < sizes[i] ==> (#[trigger] network.layers[i].neurons[j]).weights.len() == (
            if i == 0 {
                input_size
            } else {
                sizes[i - 1] as nat
            }),
        network.well_formed(),
{
    assert forall|i: int| 0 <= i < network.layers.len() implies (#[trigger] network.layers[i]).takes(
        network.width_into(i, network.inputs.len()),
    ) by {
        if i > 0 {
            assert(network.layers[i - 1].neurons.len() == sizes[i - 1]);
        }
    }
}

/// A network as [`NeuralNetwork::new`] makes it holds drawn values only:
/// whatever holds of every value that `draw` returns, such as lying between
/// two bounds, holds of every weight and of every bias.
pub proof fn lemma_built_holds_drawn_values<D: Fn() -> Double>(
    network: NetworkView,
    input_size: nat,
    sizes: Seq<usize>,
    activations: Seq<ActivationFunction>,
    draw: &D,
    low: Double,
    high: Double,
)
    requires
        network.built_from(input_size, sizes, activations, draw),
        forall|v: Double| call_ensures(draw, (), v) ==> low.le_spec(v) && v.le_spec(high),
    ensures
        forall|i: int, j: int|
            0 <= i < network.layers.len() && 0 <= j < network.layers[i].neurons.len() ==> {
                let neuron = #[trigger] network.layers[i].neurons[j];
                &&& low.le_spec(neuron.bias) && neuron.bias.le_spec(high)
                &&& forall|k: int|
                    0 <= k < neuron.weights.len() ==> low.le_spec(#[trigger] neuron.weights[k])
                        && neuron.weights[k].le_spec(high)
            },
{
    assert forall|i: int, j: int|
        0 <= i < network.layers.len() && 0 <= j < network.layers[i].neurons.len() implies {
        let neuron = #[trigger] network.layers[i].neurons[j];
        &&& low.le_spec(neuron.bias) && neuron.bias.le_spec(high)
        &&& forall|k: int|
            0 <= k < neuron.weights.len() ==> low.le_spec(#[trigger] neuron.weights[k]) && neuron.weights[k].le_spec(
                high,
            )
    } by {
        let width = if i == 0 {
            input_size
        } else {
            sizes[i - 1] as nat
        };
        assert(network.layers[i].drawn(sizes[i] as nat, width, activations[i], draw));
    }
}

/// The description of a network's shape: how many inputs it takes, and the
/// size and activation of each layer.
#[derive(Debug)]
pub struct NeuralNetworkModel {
    pub input_layer_size: usize,
    pub hidden_layers_sizes: Vec<usize>,
    pub activation_functions: Vec<ActivationFunction>,
}

impl Clone for NeuralNetworkModel {
    fn clone(&self) -> (copy: Self)
        ensures
            copy.input_layer_size == self.input_layer_size,
            copy.hidden_layers_sizes@ == self.hidden_layers_sizes@,
            copy.activation_functions@ == self.activation_functions@,
    {
        let copy = NeuralNetworkModel {
            input_layer_size: self.input_layer_size,
            hidden_layers_sizes: self.hidden_layers_sizes.clone(),
            activation_functions: self.activation_functions.clone(),
        };
        assert(copy.hidden_layers_sizes@ =~= self.hidden_layers_sizes@);
        assert(copy.activation_functions@ =~= self.activation_functions@);
        copy
    }
}

impl NeuralNetworkModel {
    pub fn new(
        input_layer_size: usize,
        hidden_layers_sizes: Vec<usize>,
        activation_functions: Vec<ActivationFunction>,
    ) -> (model: Self)
        ensures
            model.input_layer_size == input_layer_size,
            model.hidden_layers_sizes == hidden_layers_sizes,
            model.activation_functions == activation_functions,
    {
        NeuralNetworkModel { input_layer_size, hidden_layers_sizes, activation_functions }
    }

    /// The network that this model describes; see [`NeuralNetwork::new`].
    pub fn generate<D: Fn() -> Double>(&self, draw: &D) -> (network: NeuralNetwork)
        requires
            call_requires(draw, ()),
            self.hidden_layers_sizes@.len() == self.activation_functions@.len(),
            self.hidden_layers_sizes@.len() > 0,
        ensures
            network@.built_from(
                self.input_layer_size as nat,
                self.hidden_layers_sizes@,
                self.activation_functions@,
                draw,
            ),
            network@.well_formed(),
    {
        NeuralNetwork::from_model(self, draw)
    }

    /// Reads a model off a network: the input size is the number of stored
    /// inputs, and every layer after the first contributes its size and the
    /// activation of its first neuron.
    pub fn from_neural_network(nn: NeuralNetwork) -> (model: Self)
        requires
            forall|l: int| 1 <= l < nn@.layers.len() ==> (#[trigger] nn@.layers[l]).neurons.len() > 0,
        ensures
            model.input_layer_size == nn@.inputs.len(),
            model.hidden_layers_sizes@.len() == model.activation_functions@.len(),
            model.hidden_layers_sizes@.len() == (if nn@.layers.len() == 0 {
                0
            } else {
                nn@.layers.len() - 1
            }),
            forall|l: int|
                1 <= l < nn@.layers.len() ==> {
                    &&& model.hidden_layers_sizes@[l - 1] == (#[trigger] nn@.layers[l]).neurons.len()
                    &&& model.activation_functions@[l - 1] == nn@.layers[l].neurons[0].activation_function
                },
    {
        let mut hidden_layers_sizes: Vec<usize> = Vec::new();
        let mut activation_functions: Vec<ActivationFunction> = Vec::new();
        let n = nn.layers.len();
        let mut i: usize = 1;
        while i < n
            invariant
                1 <= i,
                i <= n || i == 1,
                n == nn@.layers.len(),
                hidden_layers_sizes@.len() == i - 1,
                activation_functions@.len() == i - 1,
                forall|l: int| 1 <= l < nn@.layers.len() ==> (#[trigger] nn@.layers[l]).neurons.len() > 0,
                forall|l: int|
                    1 <= l < i ==> {
                        &&& hidden_layers_sizes@[l - 1] == (#[trigger] nn@.layers[l]).neurons.len()
                        &&& activation_functions@[l - 1] == nn@.layers[l].neurons[0].activation_function
                    },
            decreases n - i,
        {
            assert(nn@.layers[i as int] == nn.layers@[i as int]@);
            assert(nn.layers@[i as int]@.neurons[0] == nn.layers@[i as int].neurons@[0]@);
            hidden_layers_sizes.push(nn.layers[i].neurons.len());
            activation_functions.push(nn.layers[i].neurons[0].activation_function);
            i += 1;
        }
        NeuralNetworkModel { input_layer_size: nn.inputs.len(), hidden_layers_sizes, activation_functions }
    }
}

} // verus!

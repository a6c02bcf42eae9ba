//! The champion artifact: a network as a sequence of bytes.
//!
//! The layout has no header, no version and no checksum. Integers are
//! little-endian. A vector is its length in eight bytes, then its elements.
//! A number is its IEEE 754 encoding. A network is the vector of its stored
//! inputs, then the vector of its layers; a layer is the vector of its
//! neurons; a neuron is the vector of its weights, its bias, its output,
//! the index of its activation in four bytes, and the two coordinates of
//! its position.

use vstd::prelude::*;
use vstd::bytes::{
    lemma_auto_spec_u32_to_from_le_bytes, lemma_auto_spec_u64_to_from_le_bytes, spec_u32_from_le_bytes,
    spec_u32_to_le_bytes, spec_u64_from_le_bytes, spec_u64_to_le_bytes, u32_from_le_bytes, u32_to_le_bytes,
    u64_from_le_bytes, u64_to_le_bytes,
};
use vstd::slice::slice_subrange;
use crate::scalar::{Double, Single};
use crate::neural_network::layers::{Layer, LayerView};
use crate::neural_network::neural_network_f::{NetworkView, NeuralNetwork};
use crate::neural_network::neuron::{ActivationFunction, Neuron, NeuronView};

verus! {

/// Why a sequence of bytes is no artifact.
#[derive(Debug, Clone, Copy, PartialEq, Eq, Structural)]
pub enum DecodeError {
    /// The bytes end before the network does.
    UnexpectedEnd,
    /// An activation index names no activation.
    InvalidActivation,
}

/// The index that stands for an activation in the artifact.
pub open spec fn activation_index(activation_function: ActivationFunction) -> u32 {
    match activation_function {
        ActivationFunction::Sigmoid => 0,
        ActivationFunction::Relu => 1,
        ActivationFunction::Tanh => 2,
        ActivationFunction::Linear => 3,
    }
}

/// The bytes of a run of numbers, without their count.
pub open spec fn doubles_bytes(values: Seq<Double>) -> Seq<u8> {
    values.map_values(|d: Double| spec_u64_to_le_bytes(d.bits)).flatten()
}

/// The bytes of a vector of numbers: the count, then the numbers.
pub open spec fn vector_bytes(values: Seq<Double>) -> Seq<u8> {
    spec_u64_to_le_bytes(values.len() as u64) + doubles_bytes(values)
}

/// The bytes of a neuron.
pub open spec fn neuron_bytes(neuron: NeuronView) -> Seq<u8> {
    vector_bytes(neuron.weights) + spec_u64_to_le_bytes(neuron.bias.bits) + spec_u64_to_le_bytes(
        neuron.output.bits,
    ) + spec_u32_to_le_bytes(activation_index(neuron.activation_function)) + spec_u32_to_le_bytes(
        neuron.position.0.bits,
    ) + spec_u32_to_le_bytes(neuron.position.1.bits)
}

/// The bytes of a run of neurons, without their count.
pub open spec fn neurons_bytes(neurons: Seq<NeuronView>) -> Seq<u8> {
    neurons.map_values(|n: NeuronView| neuron_bytes(n)).flatten()
}

/// The bytes of a layer: the count of its neurons, then the neurons.
pub open spec fn layer_bytes(layer: LayerView) -> Seq<u8> {
    spec_u64_to_le_bytes(layer.neurons.len() as u64) + neurons_bytes(layer.neurons)
}

/// The bytes of a run of layers, without their count.
pub open spec fn layers_bytes(layers: Seq<LayerView>) -> Seq<u8> {
    layers.map_values(|l: LayerView| layer_bytes(l)).flatten()
}

/// The artifact of a network.
pub open spec fn artifact_bytes(network: NetworkView) -> Seq<u8> {
    vector_bytes(network.inputs) + spec_u64_to_le_bytes(network.layers.len() as u64) + layers_bytes(
        network.layers,
    )
}

/// Reads eight bytes at `at` as an integer. Returns it with the position
/// after it.
pub open spec fn parse_u64(bytes: Seq<u8>, at: int) -> Result<(u64, int), DecodeError> {
    if 0 <= at && at + 8 <= bytes.len() {
        Ok((spec_u64_from_le_bytes(bytes.subrange(at, at + 8)), at + 8))
    } else {
        Err(DecodeError::UnexpectedEnd)
    }
}

/// Reads four bytes at `at` as an integer.
pub open spec fn parse_u32(bytes: Seq<u8>, at: int) -> Result<(u32, int), DecodeError> {
    if 0 <= at && at + 4 <= bytes.len() {
        Ok((spec_u32_from_le_bytes(bytes.subrange(at, at + 4)), at + 4))
    } else {
        Err(DecodeError::UnexpectedEnd)
    }
}

/// Reads `count` numbers at `at`.
pub open spec fn parse_doubles(bytes: Seq<u8>, at: int, count: nat) -> Result<(Seq<Double>, int), DecodeError>
    decreases count,
{
    if count == 0 {
        Ok((Seq::empty(), at))
    } else {
        match parse_doubles(bytes, at, (count - 1) as nat) {
            Err(e) => Err(e),
            Ok((values, mid)) => match parse_u64(bytes, mid) {
                Err(e) => Err(e),
                Ok((bits, next)) => Ok((values.push(Double { bits }), next)),
            },
        }
    }
}

/// Reads a vector of numbers at `at`: the count, then the numbers.
pub open spec fn parse_vector(bytes: Seq<u8>, at: int) -> Result<(Seq<Double>, int), DecodeError> {
    match parse_u64(bytes, at) {
        Err(e) => Err(e),
        Ok((count, mid)) => parse_doubles(bytes, mid, count as nat),
    }
}

/// Reads an activation at `at`: an index below four, in four bytes.
pub open spec fn parse_activation(bytes: Seq<u8>, at: int) -> Result<(ActivationFunction, int), DecodeError> {
    match parse_u32(bytes, at) {
        Err(e) => Err(e),
        Ok((index, next)) => if index == 0 {
            Ok((ActivationFunction::Sigmoid, next))
        } else if index == 1 {
            Ok((ActivationFunction::Relu, next))
        } else if index == 2 {
            Ok((ActivationFunction::Tanh, next))
        } else if index == 3 {
            Ok((ActivationFunction::Linear, next))
        } else {
            Err(DecodeError::InvalidActivation)
        },
    }
}

/// Reads a neuron at `at`.
pub open spec fn parse_neuron(bytes: Seq<u8>, at: int) -> Result<(NeuronView, int), DecodeError> {
    match parse_vector(bytes, at) {
        Err(e) => Err(e),
        Ok((weights, after_weights)) => match parse_u64(bytes, after_weights) {
            Err(e) => Err(e),
            Ok((bias, after_bias)) => match parse_u64(bytes, after_bias) {
                Err(e) => Err(e),
                Ok((output, after_output)) => match parse_activation(bytes, after_output) {
                    Err(e) => Err(e),
                    Ok((activation_function, after_activation)) => match parse_u32(bytes, after_activation) {
                        Err(e) => Err(e),
                        Ok((x, after_x)) => match parse_u32(bytes, after_x) {
                            Err(e) => Err(e),
                            Ok((y, after_y)) => Ok(
                                (
                                    NeuronView {
                                        weights,
                                        bias: Double { bits: bias },
                                        output: Double { bits: output },
                                        activation_function,
                                        position: (Single { bits: x }, Single { bits: y }),
                                    },
                                    after_y,
                                ),
                            ),
                        },
                    },
                },
            },
        },
    }
}

/// Reads `count` neurons at `at`.
pub open spec fn parse_neurons(bytes: Seq<u8>, at: int, count: nat) -> Result<(Seq<NeuronView>, int), DecodeError>
    decreases count,
{
    if count == 0 {
        Ok((Seq::empty(), at))
    } else {
        match parse_neurons(bytes, at, (count - 1) as nat) {
            Err(e) => Err(e),
            Ok((neurons, mid)) => match parse_neuron(bytes, mid) {
                Err(e) => Err(e),
                Ok((neuron, next)) => Ok((neurons.push(neuron), next)),
            },
        }
    }
}

/// Reads a layer at `at`: the count of its neurons, then the neurons.
pub open spec fn parse_layer(bytes: Seq<u8>, at: int) -> Result<(LayerView, int), DecodeError> {
    match parse_u64(bytes, at) {
        Err(e) => Err(e),
        Ok((count, mid)) => match parse_neurons(bytes, mid, count as nat) {
            Err(e) => Err(e),
            Ok((neurons, next)) => Ok((LayerView { neurons }, next)),
        },
    }
}

/// Reads `count` layers at `at`.
pub open spec fn parse_layers(bytes: Seq<u8>, at: int, count: nat) -> Result<(Seq<LayerView>, int), DecodeError>
    decreases count,
{
    if count == 0 {
        Ok((Seq::empty(), at))
    } else {
        match parse_layers(bytes, at, (count - 1) as nat) {
            Err(e) => Err(e),
            Ok((layers, mid)) => match parse_layer(bytes, mid) {
                Err(e) => Err(e),
                Ok((layer, next)) => Ok((layers.push(layer), next)),
            },
        }
    }
}

/// Reads a network from the start of `bytes`. Returns it with the number
/// of bytes it takes; what follows them is not looked at.
pub open spec fn parse_artifact(bytes: Seq<u8>) -> Result<(NetworkView, int), DecodeError> {
    match parse_vector(bytes, 0) {
        Err(e) => Err(e),
        Ok((inputs, after_inputs)) => match parse_u64(bytes, after_inputs) {
            Err(e) => Err(e),
            Ok((count, after_count)) => match parse_layers(bytes, after_count, count as nat) {
                Err(e) => Err(e),
                Ok((layers, next)) => Ok((NetworkView { inputs, layers }, next)),
            },
        },
    }
}

proof fn lemma_doubles_bytes_step(values: Seq<Double>, k: int)
    requires
        0 <= k < values.len(),
    ensures
        doubles_bytes(values.take(k + 1)) == doubles_bytes(values.take(k)) + spec_u64_to_le_bytes(values[k].bits),
        doubles_bytes(values.take(0)) == Seq::<u8>::empty(),
        values.take(values.len() as int) == values,
{
    let f = |d: Double| spec_u64_to_le_bytes(d.bits);
    assert(values.take(k + 1).map_values(f) =~= values.take(k).map_values(f).push(f(values[k])));
    values.take(k).map_values(f).lemma_flatten_push(f(values[k]));
    assert(values.take(0).map_values(f) =~= Seq::<Seq<u8>>::empty());
    assert(values.take(values.len() as int) =~= values);
}

proof fn lemma_neurons_bytes_step(neurons: Seq<NeuronView>, k: int)
    requires
        0 <= k < neurons.len(),
    ensures
        neurons_bytes(neurons.take(k + 1)) == neurons_bytes(neurons.take(k)) + neuron_bytes(neurons[k]),
        neurons_bytes(neurons.take(0)) == Seq::<u8>::empty(),
        neurons.take(neurons.len() as int) == neurons,
{
    let f = |n: NeuronView| neuron_bytes(n);
    assert(neurons.take(k + 1).map_values(f) =~= neurons.take(k).map_values(f).push(f(neurons[k])));
    neurons.take(k).map_values(f).lemma_flatten_push(f(neurons[k]));
    assert(neurons.take(0).map_values(f) =~= Seq::<Seq<u8>>::empty());
    assert(neurons.take(neurons.len() as int) =~= neurons);
}

proof fn lemma_layers_bytes_step(layers: Seq<LayerView>, k: int)
    requires
        0 <= k < layers.len(),
    ensures
        layers_bytes(layers.take(k + 1)) == layers_bytes(layers.take(k)) + layer_bytes(layers[k]),
        layers_bytes(layers.take(0)) == Seq::<u8>::empty(),
        layers.take(layers.len() as int) == layers,
{
    let f = |l: LayerView| layer_bytes(l);
    assert(layers.take(k + 1).map_values(f) =~= layers.take(k).map_values(f).push(f(layers[k])));
    layers.take(k).map_values(f).lemma_flatten_push(f(layers[k]));
    assert(layers.take(0).map_values(f) =~= Seq::<Seq<u8>>::empty());
    assert(layers.take(layers.len() as int) =~= layers);
}

/// `encoding` stands in `bytes` at `at`.
pub open spec fn holds_at(bytes: Seq<u8>, at: int, encoding: Seq<u8>) -> bool {
    &&& 0 <= at
    &&& at + encoding.len() <= bytes.len()
    &&& bytes.subrange(at, at + encoding.len()) == encoding
}

proof fn lemma_holds_at_split(bytes: Seq<u8>, at: int, head: Seq<u8>, tail: Seq<u8>)
    requires
        holds_at(bytes, at, head + tail),
    ensures
        holds_at(bytes, at, head),
        holds_at(bytes, at + head.len(), tail),
{
    let whole = head + tail;
    let window = bytes.subrange(at, at + whole.len());
    assert forall|i: int| 0 <= i < head.len() implies bytes.subrange(at, at + head.len())[i] == head[i] by {
        assert(window[i] == whole[i]);
    }
    assert(bytes.subrange(at, at + head.len()) =~= head);
    assert forall|i: int| 0 <= i < tail.len() implies bytes.subrange(
        at + head.len(),
        at + head.len() + tail.len(),
    )[i] == tail[i] by {
        assert(window[head.len() + i] == whole[head.len() + i]);
    }
    assert(bytes.subrange(at + head.len(), at + head.len() + tail.len()) =~= tail);
}

proof fn lemma_parse_u64_at(bytes: Seq<u8>, at: int, x: u64)
    requires
        holds_at(bytes, at, spec_u64_to_le_bytes(x)),
    ensures
        parse_u64(bytes, at) == Ok::<(u64, int), DecodeError>((x, at + 8)),
        spec_u64_to_le_bytes(x).len() == 8,
{
    lemma_auto_spec_u64_to_from_le_bytes();
}

proof fn lemma_parse_u32_at(bytes: Seq<u8>, at: int, x: u32)
    requires
        holds_at(bytes, at, spec_u32_to_le_bytes(x)),
    ensures
        parse_u32(bytes, at) == Ok::<(u32, int), DecodeError>((x, at + 4)),
        spec_u32_to_le_bytes(x).len() == 4,
{
    lemma_auto_spec_u32_to_from_le_bytes();
}

proof fn lemma_parse_doubles_at(bytes: Seq<u8>, at: int, values: Seq<Double>)
    requires
        holds_at(bytes, at, doubles_bytes(values)),
    ensures
        parse_doubles(bytes, at, values.len()) == Ok::<(Seq<Double>, int), DecodeError>(
            (values, at + doubles_bytes(values).len()),
        ),
    decreases values.len(),
{
    if values.len() == 0 {
        assert(values.map_values(|d: Double| spec_u64_to_le_bytes(d.bits)) =~= Seq::<Seq<u8>>::empty());
        assert(values =~= Seq::<Double>::empty());
    } else {
        let k = values.len() - 1;
        let init = values.drop_last();
        lemma_doubles_bytes_step(values, k);
        assert(values.take(k) =~= init);
        lemma_holds_at_split(bytes, at, doubles_bytes(init), spec_u64_to_le_bytes(values[k].bits));
        lemma_parse_doubles_at(bytes, at, init);
        lemma_parse_u64_at(bytes, at + doubles_bytes(init).len(), values[k].bits);
        assert(init.push(Double { bits: values[k].bits }) =~= values);
    }
}

proof fn lemma_parse_vector_at(bytes: Seq<u8>, at: int, values: Seq<Double>)
    requires
        values.len() <= u64::MAX,
        holds_at(bytes, at, vector_bytes(values)),
    ensures
        parse_vector(bytes, at) == Ok::<(Seq<Double>, int), DecodeError>((values, at + vector_bytes(values).len())),
{
    lemma_holds_at_split(bytes, at, spec_u64_to_le_bytes(values.len() as u64), doubles_bytes(values));
    lemma_parse_u64_at(bytes, at, values.len() as u64);
    lemma_parse_doubles_at(bytes, at + 8, values);
}

proof fn lemma_parse_activation_at(bytes: Seq<u8>, at: int, activation_function: ActivationFunction)
    requires
        holds_at(bytes, at, spec_u32_to_le_bytes(activation_index(activation_function))),
    ensures
        parse_activation(bytes, at) == Ok::<(ActivationFunction, int), DecodeError>((activation_function, at + 4)),
{
    lemma_parse_u32_at(bytes, at, activation_index(activation_function));
}

proof fn lemma_parse_neuron_at(bytes: Seq<u8>, at: int, neuron: NeuronView)
    requires
        neuron.weights.len() <= u64::MAX,
        holds_at(bytes, at, neuron_bytes(neuron)),
    ensures
        parse_neuron(bytes, at) == Ok::<(NeuronView, int), DecodeError>((neuron, at + neuron_bytes(neuron).len())),
{
    lemma_auto_spec_u64_to_from_le_bytes();
    lemma_auto_spec_u32_to_from_le_bytes();
    let weights = vector_bytes(neuron.weights);
    let bias = spec_u64_to_le_bytes(neuron.bias.bits);
    let output = spec_u64_to_le_bytes(neuron.output.bits);
    let activation = spec_u32_to_le_bytes(activation_index(neuron.activation_function));
    let x = spec_u32_to_le_bytes(neuron.position.0.bits);
    let y = spec_u32_to_le_bytes(neuron.position.1.bits);
    lemma_holds_at_split(bytes, at, weights + bias + output + activation + x, y);
    lemma_holds_at_split(bytes, at, weights + bias + output + activation, x);
    lemma_holds_at_split(bytes, at, weights + bias + output, activation);
    lemma_holds_at_split(bytes, at, weights + bias, output);
    lemma_holds_at_split(bytes, at, weights, bias);
    let after_weights = at + weights.len();
    lemma_parse_vector_at(bytes, at, neuron.weights);
    lemma_parse_u64_at(bytes, after_weights, neuron.bias.bits);
    lemma_parse_u64_at(bytes, after_weights + 8, neuron.output.bits);
    lemma_parse_activation_at(bytes, after_weights + 16, neuron.activation_function);
    lemma_parse_u32_at(bytes, after_weights + 20, neuron.position.0.bits);
    lemma_parse_u32_at(bytes, after_weights + 24, neuron.position.1.bits);
}

/// The counts in a layer fit the eight bytes that the artifact gives them.
pub open spec fn layer_encodable(layer: LayerView) -> bool {
    &&& layer.neurons.len() <= u64::MAX
    &&& forall|j: int| 0 <= j < layer.neurons.len() ==> (#[trigger] layer.neurons[j]).weights.len() <= u64::MAX
}

/// The counts in a network fit the eight bytes that the artifact gives
/// them. This holds of every network in memory.
pub open spec fn encodable(network: NetworkView) -> bool {
    &&& network.inputs.len() <= u64::MAX
    &&& network.layers.len() <= u64::MAX
    &&& forall|i: int| 0 <= i < network.layers.len() ==> layer_encodable(#[trigger] network.layers[i])
}

proof fn lemma_parse_neurons_at(bytes: Seq<u8>, at: int, neurons: Seq<NeuronView>)
    requires
        forall|j: int| 0 <= j < neurons.len() ==> (#[trigger] neurons[j]).weights.len() <= u64::MAX,
        holds_at(bytes, at, neurons_bytes(neurons)),
    ensures
        parse_neurons(bytes, at, neurons.len()) == Ok::<(Seq<NeuronView>, int), DecodeError>(
            (neurons, at + neurons_bytes(neurons).len()),
        ),
    decreases neurons.len(),
{
    if neurons.len() == 0 {
        assert(neurons.map_values(|n: NeuronView| neuron_bytes(n)) =~= Seq::<Seq<u8>>::empty());
        assert(neurons =~= Seq::<NeuronView>::empty());
    } else {
        let k = neurons.len() - 1;
        let init = neurons.drop_last();
        lemma_neurons_bytes_step(neurons, k);
        assert(neurons.take(k) =~= init);
        lemma_holds_at_split(bytes, at, neurons_bytes(init), neuron_bytes(neurons[k]));
        lemma_parse_neurons_at(bytes, at, init);
        lemma_parse_neuron_at(bytes, at + neurons_bytes(init).len(), neurons[k]);
        assert(init.push(neurons[k]) =~= neurons);
    }
}

proof fn lemma_parse_layer_at(bytes: Seq<u8>, at: int, layer: LayerView)
    requires
        layer_encodable(layer),
        holds_at(bytes, at, layer_bytes(layer)),
    ensures
        parse_layer(bytes, at) == Ok::<(LayerView, int), DecodeError>((layer, at + layer_bytes(layer).len())),
{
    lemma_holds_at_split(bytes, at, spec_u64_to_le_bytes(layer.neurons.len() as u64), neurons_bytes(layer.neurons));
    lemma_parse_u64_at(bytes, at, layer.neurons.len() as u64);
    lemma_parse_neurons_at(bytes, at + 8, layer.neurons);
}

proof fn lemma_parse_layers_at(bytes: Seq<u8>, at: int, layers: Seq<LayerView>)
    requires
        forall|i: int| 0 <= i < layers.len() ==> layer_encodable(#[trigger] layers[i]),
        holds_at(bytes, at, layers_bytes(layers)),
    ensures
        parse_layers(bytes, at, layers.len()) == Ok::<(Seq<LayerView>, int), DecodeError>(
            (layers, at + layers_bytes(layers).len()),
        ),
    decreases layers.len(),
{
    if layers.len() == 0 {
        assert(layers.map_values(|l: LayerView| layer_bytes(l)) =~= Seq::<Seq<u8>>::empty());
        assert(layers =~= Seq::<LayerView>::empty());
    } else {
        let k = layers.len() - 1;
        let init = layers.drop_last();
        lemma_layers_bytes_step(layers, k);
        assert(layers.take(k) =~= init);
        lemma_holds_at_split(bytes, at, layers_bytes(init), layer_bytes(layers[k]));
        lemma_parse_layers_at(bytes, at, init);
        lemma_parse_layer_at(bytes, at + layers_bytes(init).len(), layers[k]);
        assert(init.push(layers[k]) =~= layers);
    }
}

/// Reading an artifact gives back the network it was written from: the same
/// layers and neurons, and every weight, bias, output and input bit for
/// bit. Bytes that follow the artifact make no difference.
pub proof fn lemma_artifact_round_trip(network: NetworkView, rest: Seq<u8>)
    requires
        encodable(network),
    ensures
        parse_artifact(artifact_bytes(network) + rest) == Ok::<(NetworkView, int), DecodeError>(
            (network, artifact_bytes(network).len() as int),
        ),
{
    let bytes = artifact_bytes(network) + rest;
    let inputs = vector_bytes(network.inputs);
    let count = spec_u64_to_le_bytes(network.layers.len() as u64);
    let layers = layers_bytes(network.layers);
    assert(bytes.subrange(0, artifact_bytes(network).len() as int) =~= artifact_bytes(network));
    lemma_holds_at_split(bytes, 0, inputs + count, layers);
    lemma_holds_at_split(bytes, 0, inputs, count);
    lemma_parse_vector_at(bytes, 0, network.inputs);
    lemma_parse_u64_at(bytes, inputs.len() as int, network.layers.len() as u64);
    lemma_parse_layers_at(bytes, inputs.len() as int + 8, network.layers);
}

fn activation_to_index(activation_function: ActivationFunction) -> (index: u32)
    ensures
        index == activation_index(activation_function),
{
    match activation_function {
        ActivationFunction::Sigmoid => 0,
        ActivationFunction::Relu => 1,
        ActivationFunction::Tanh => 2,
        ActivationFunction::Linear => 3,
    }
}

fn put_u64(out: &mut Vec<u8>, x: u64)
    ensures
        final(out)@ == old(out)@ + spec_u64_to_le_bytes(x),
{
    let mut bytes = u64_to_le_bytes(x);
    out.append(&mut bytes);
}

fn put_u32(out: &mut Vec<u8>, x: u32)
    ensures
        final(out)@ == old(out)@ + spec_u32_to_le_bytes(x),
{
    let mut bytes = u32_to_le_bytes(x);
    out.append(&mut bytes);
}

fn put_vector(out: &mut Vec<u8>, values: &Vec<Double>)
    ensures
        final(out)@ == old(out)@ + vector_bytes(values@),
{
    let n = values.len();
    put_u64(out, n as u64);
    let mut k: usize = 0;
    proof {
        if n > 0 {
            lemma_doubles_bytes_step(values@, 0);
        } else {
            assert(values@.map_values(|d: Double| spec_u64_to_le_bytes(d.bits)) =~= Seq::<Seq<u8>>::empty());
        }
        assert(out@ =~= old(out)@ + (spec_u64_to_le_bytes(n as u64) + Seq::<u8>::empty()));
    }
    while k < n
        invariant
            k <= n,
            n == values@.len(),
            n > 0 ==> out@ == old(out)@ + (spec_u64_to_le_bytes(n as u64) + doubles_bytes(values@.take(k as int))),
            n == 0 ==> out@ == old(out)@ + vector_bytes(values@),
        decreases n - k,
    {
        put_u64(out, values[k].bits);
        proof {
            lemma_doubles_bytes_step(values@, k as int);
            assert(out@ =~= old(out)@ + (spec_u64_to_le_bytes(n as u64) + doubles_bytes(values@.take(k + 1))));
        }
        k += 1;
    }
    proof {
        if n > 0 {
            lemma_doubles_bytes_step(values@, n - 1);
        }
    }
}

fn put_neuron(out: &mut Vec<u8>, neuron: &Neuron)
    ensures
        final(out)@ == old(out)@ + neuron_bytes(neuron@),
{
    put_vector(out, &neuron.weights);
    put_u64(out, neuron.bias.bits);
    put_u64(out, neuron.output.bits);
    put_u32(out, activation_to_index(neuron.activation_function));
    put_u32(out, neuron.position.0.bits);
    put_u32(out, neuron.position.1.bits);
    assert(out@ =~= old(out)@ + neuron_bytes(neuron@));
}

fn put_layer(out: &mut Vec<u8>, layer: &Layer)
    ensures
        final(out)@ == old(out)@ + layer_bytes(layer@),
{
    let n = layer.neurons.len();
    put_u64(out, n as u64);
    let mut k: usize = 0;
    proof {
        if n > 0 {
            lemma_neurons_bytes_step(layer@.neurons, 0);
        } else {
            assert(layer@.neurons.map_values(|n: NeuronView| neuron_bytes(n)) =~= Seq::<Seq<u8>>::empty());
        }
        assert(out@ =~= old(out)@ + (spec_u64_to_le_bytes(n as u64) + Seq::<u8>::empty()));
    }
    while k < n
        invariant
            k <= n,
            n == layer.neurons@.len(),
            n > 0 ==> out@ == old(out)@ + (spec_u64_to_le_bytes(n as u64) + neurons_bytes(
                layer@.neurons.take(k as int),
            )),
            n == 0 ==> out@ == old(out)@ + layer_bytes(layer@),
        decreases n - k,
    {
        put_neuron(out, &layer.neurons[k]);
        proof {
            assert(layer@.neurons[k as int] == layer.neurons@[k as int]@);
            lemma_neurons_bytes_step(layer@.neurons, k as int);
            assert(out@ =~= old(out)@ + (spec_u64_to_le_bytes(n as u64) + neurons_bytes(
                layer@.neurons.take(k + 1),
            )));
        }
        k += 1;
    }
    proof {
        if n > 0 {
            lemma_neurons_bytes_step(layer@.neurons, n - 1);
        }
    }
}

/// Every network in memory is encodable: its counts are machine words.
pub proof fn lemma_networks_are_encodable(network: &NeuralNetwork)
    ensures
        encodable(network@),
{
    assert(network.inputs.len() == network.inputs@.len());
    assert(network.layers.len() == network.layers@.len());
    assert forall|i: int| 0 <= i < network@.layers.len() implies layer_encodable(#[trigger] network@.layers[i]) by {
        let layer = network.layers@[i];
        assert(network@.layers[i] == layer@);
        assert(layer.neurons.len() == layer.neurons@.len());
        assert forall|j: int| 0 <= j < layer@.neurons.len() implies (#[trigger] layer@.neurons[j]).weights.len()
            <= u64::MAX by {
            let neuron = layer.neurons@[j];
            assert(layer@.neurons[j] == neuron@);
            assert(neuron.weights.len() == neuron.weights@.len());
        }
    }
}

/// Writes a network as its artifact. Reading the artifact gives the
/// network back.
pub fn encode(network: &NeuralNetwork) -> (bytes: Vec<u8>)
    ensures
        bytes@ == artifact_bytes(network@),
        parse_artifact(bytes@) == Ok::<(NetworkView, int), DecodeError>((network@, bytes@.len() as int)),
{
    proof {
        lemma_networks_are_encodable(network);
        lemma_artifact_round_trip(network@, Seq::empty());
        assert(artifact_bytes(network@) + Seq::<u8>::empty() =~= artifact_bytes(network@));
    }
    let mut out: Vec<u8> = Vec::new();
    put_vector(&mut out, &network.inputs);
    let n = network.layers.len();
    put_u64(&mut out, n as u64);
    let ghost head = out@;
    let mut k: usize = 0;
    proof {
        if n > 0 {
            lemma_layers_bytes_step(network@.layers, 0);
        } else {
            assert(network@.layers.map_values(|l: LayerView| layer_bytes(l)) =~= Seq::<Seq<u8>>::empty());
        }
        assert(out@ =~= head + Seq::<u8>::empty());
        assert(head =~= vector_bytes(network@.inputs) + spec_u64_to_le_bytes(n as u64));
    }
    while k < n
        invariant
            k <= n,
            n == network.layers@.len(),
            head == vector_bytes(network@.inputs) + spec_u64_to_le_bytes(n as u64),
            n > 0 ==> out@ == head + layers_bytes(network@.layers.take(k as int)),
            n == 0 ==> out@ == head + layers_bytes(network@.layers),
        decreases n - k,
    {
        put_layer(&mut out, &network.layers[k]);
        proof {
            assert(network@.layers[k as int] == network.layers@[k as int]@);
            lemma_layers_bytes_step(network@.layers, k as int);
            assert(out@ =~= head + layers_bytes(network@.layers.take(k + 1)));
        }
        k += 1;
    }
    proof {
        if n > 0 {
            lemma_layers_bytes_step(network@.layers, n - 1);
        }
    }
    out
}

proof fn lemma_parse_doubles_error(bytes: Seq<u8>, at: int, failed: nat, count: nat)
    requires
        failed <= count,
        parse_doubles(bytes, at, failed) is Err,
    ensures
        parse_doubles(bytes, at, count) == parse_doubles(bytes, at, failed),
    decreases count,
{
    if failed < count {
        lemma_parse_doubles_error(bytes, at, failed, (count - 1) as nat);
    }
}

proof fn lemma_parse_neurons_error(bytes: Seq<u8>, at: int, failed: nat, count: nat)
    requires
        failed <= count,
        parse_neurons(bytes, at, failed) is Err,
    ensures
        parse_neurons(bytes, at, count) == parse_neurons(bytes, at, failed),
    decreases count,
{
    if failed < count {
        lemma_parse_neurons_error(bytes, at, failed, (count - 1) as nat);
    }
}

proof fn lemma_parse_layers_error(bytes: Seq<u8>, at: int, failed: nat, count: nat)
    requires
        failed <= count,
        parse_layers(bytes, at, failed) is Err,
    ensures
        parse_layers(bytes, at, count) == parse_layers(bytes, at, failed),
    decreases count,
{
    if failed < count {
        lemma_parse_layers_error(bytes, at, failed, (count - 1) as nat);
    }
}

fn get_u64(bytes: &[u8], at: usize) -> (r: Result<(u64, usize), DecodeError>)
    requires
        at <= bytes@.len(),
    ensures
        r matches Ok((x, next)) ==> parse_u64(bytes@, at as int) == Ok::<(u64, int), DecodeError>(
            (x, next as int),
        ) && next <= bytes@.len(),
        r matches Err(e) ==> parse_u64(bytes@, at as int) == Err::<(u64, int), DecodeError>(e),
{
    if bytes.len() - at < 8 {
        return Err(DecodeError::UnexpectedEnd);
    }
    let x = u64_from_le_bytes(slice_subrange(bytes, at, at + 8));
    Ok((x, at + 8))
}

fn get_u32(bytes: &[u8], at: usize) -> (r: Result<(u32, usize), DecodeError>)
    requires
        at <= bytes@.len(),
    ensures
        r matches Ok((x, next)) ==> parse_u32(bytes@, at as int) == Ok::<(u32, int), DecodeError>(
            (x, next as int),
        ) && next <= bytes@.len(),
        r matches Err(e) ==> parse_u32(bytes@, at as int) == Err::<(u32, int), DecodeError>(e),
{
    if bytes.len() - at < 4 {
        return Err(DecodeError::UnexpectedEnd);
    }
    let x = u32_from_le_bytes(slice_subrange(bytes, at, at + 4));
    Ok((x, at + 4))
}

fn get_vector(bytes: &[u8], at: usize) -> (r: Result<(Vec<Double>, usize), DecodeError>)
    requires
        at <= bytes@.len(),
    ensures
        r matches Ok((values, next)) ==> parse_vector(bytes@, at as int) == Ok::<(Seq<Double>, int), DecodeError>(
            (values@, next as int),
        ) && next <= bytes@.len(),
        r matches Err(e) ==> parse_vector(bytes@, at as int) == Err::<(Seq<Double>, int), DecodeError>(e),
{
    let (count, start) = match get_u64(bytes, at) {
        Ok(read) => read,
        Err(e) => {
            return Err(e);
        },
    };
    let mut values: Vec<Double> = Vec::new();
    let mut pos: usize = start;
    let mut k: u64 = 0;
    while k < count
        invariant
            k <= count,
            start <= bytes@.len(),
            pos <= bytes@.len(),
            parse_u64(bytes@, at as int) == Ok::<(u64, int), DecodeError>((count, start as int)),
            parse_doubles(bytes@, start as int, k as nat) == Ok::<(Seq<Double>, int), DecodeError>(
                (values@, pos as int),
            ),
        decreases count - k,
    {
        match get_u64(bytes, pos) {
            Ok((bits, next)) => {
                values.push(Double { bits });
                pos = next;
            },
            Err(e) => {
                proof {
                    assert(parse_doubles(bytes@, start as int, (k + 1) as nat) == Err::<
                        (Seq<Double>, int),
                        DecodeError,
                    >(e));
                    lemma_parse_doubles_error(bytes@, start as int, (k + 1) as nat, count as nat);
                }
                return Err(e);
            },
        }
        k += 1;
    }
    Ok((values, pos))
}

fn get_activation(bytes: &[u8], at: usize) -> (r: Result<(ActivationFunction, usize), DecodeError>)
    requires
        at <= bytes@.len(),
    ensures
        r matches Ok((a, next)) ==> parse_activation(bytes@, at as int) == Ok::<
            (ActivationFunction, int),
            DecodeError,
        >((a, next as int)) && next <= bytes@.len(),
        r matches Err(e) ==> parse_activation(bytes@, at as int) == Err::<(ActivationFunction, int), DecodeError>(e),
{
    let (index, next) = match get_u32(bytes, at) {
        Ok(read) => read,
        Err(e) => {
            return Err(e);
        },
    };
    if index == 0 {
        Ok((ActivationFunction::Sigmoid, next))
    } else if index == 1 {
        Ok((ActivationFunction::Relu, next))
    } else if index == 2 {
        Ok((ActivationFunction::Tanh, next))
    } else if index == 3 {
        Ok((ActivationFunction::Linear, next))
    } else {
        Err(DecodeError::InvalidActivation)
    }
}

fn get_neuron(bytes: &[u8], at: usize) -> (r: Result<(Neuron, usize), DecodeError>)
    requires
        at <= bytes@.len(),
    ensures
        r matches Ok((neuron, next)) ==> parse_neuron(bytes@, at as int) == Ok::<(NeuronView, int), DecodeError>(
            (neuron@, next as int),
        ) && next <= bytes@.len(),
        r matches Err(e) ==> parse_neuron(bytes@, at as int) == Err::<(NeuronView, int), DecodeError>(e),
{
    let (weights, after_weights) = match get_vector(bytes, at) {
        Ok(read) => read,
        Err(e) => {
            return Err(e);
        },
    };
    let (bias, after_bias) = match get_u64(bytes, after_weights) {
        Ok(read) => read,
        Err(e) => {
            return Err(e);
        },
    };
    let (output, after_output) = match get_u64(bytes, after_bias) {
        Ok(read) => read,
        Err(e) => {
            return Err(e);
        },
    };
    let (activation_function, after_activation) = match get_activation(bytes, after_output) {
        Ok(read) => read,
        Err(e) => {
            return Err(e);
        },
    };
    let (x, after_x) = match get_u32(bytes, after_activation) {
        Ok(read) => read,
        Err(e) => {
            return Err(e);
        },
    };
    let (y, after_y) = match get_u32(bytes, after_x) {
        Ok(read) => read,
        Err(e) => {
            return Err(e);
        },
    };
    Ok(
        (
            Neuron {
                weights,
                bias: Double { bits: bias },
                output: Double { bits: output },
                activation_function,
                position: (Single { bits: x }, Single { bits: y }),
            },
            after_y,
        ),
    )
}

fn get_layer(bytes: &[u8], at: usize) -> (r: Result<(Layer, usize), DecodeError>)
    requires
        at <= bytes@.len(),
    ensures
        r matches Ok((layer, next)) ==> parse_layer(bytes@, at as int) == Ok::<(LayerView, int), DecodeError>(
            (layer@, next as int),
        ) && next <= bytes@.len(),
        r matches Err(e) ==> parse_layer(bytes@, at as int) == Err::<(LayerView, int), DecodeError>(e),
{
    let (count, start) = match get_u64(bytes, at) {
        Ok(read) => read,
        Err(e) => {
            return Err(e);
        },
    };
    let mut neurons: Vec<Neuron> = Vec::new();
    let ghost mut views: Seq<NeuronView> = Seq::empty();
    let mut pos: usize = start;
    let mut k: u64 = 0;
    while k < count
        invariant
            k <= count,
            start <= bytes@.len(),
            pos <= bytes@.len(),
            views.len() == neurons@.len(),
            forall|j: int| 0 <= j < views.len() ==> #[trigger] views[j] == neurons@[j]@,
            parse_u64(bytes@, at as int) == Ok::<(u64, int), DecodeError>((count, start as int)),
            parse_neurons(bytes@, start as int, k as nat) == Ok::<(Seq<NeuronView>, int), DecodeError>(
                (views, pos as int),
            ),
        decreases count - k,
    {
        match get_neuron(bytes, pos) {
            Ok((neuron, next)) => {
                proof {
                    views = views.push(neuron@);
                }
                neurons.push(neuron);
                pos = next;
            },
            Err(e) => {
                proof {
                    assert(parse_neurons(bytes@, start as int, (k + 1) as nat) == Err::<
                        (Seq<NeuronView>, int),
                        DecodeError,
                    >(e));
                    lemma_parse_neurons_error(bytes@, start as int, (k + 1) as nat, count as nat);
                }
                return Err(e);
            },
        }
        k += 1;
    }
    let layer = Layer { neurons };
    assert(layer@.neurons =~= views);
    Ok((layer, pos))
}

/// Reads a network from the start of `bytes`; see [`parse_artifact`].
/// Bytes after the network are ignored. Fails when the bytes end too early
/// and when an activation index is four or more.
pub fn decode(bytes: &[u8]) -> (r: Result<NeuralNetwork, DecodeError>)
    ensures
        r matches Ok(network) ==> parse_artifact(bytes@) matches Ok((v, _)) && v == network@,
        r matches Err(e) ==> parse_artifact(bytes@) == Err::<(NetworkView, int), DecodeError>(e),
{
    let (inputs, after_inputs) = match get_vector(bytes, 0) {
        Ok(read) => read,
        Err(e) => {
            return Err(e);
        },
    };
    let (count, start) = match get_u64(bytes, after_inputs) {
        Ok(read) => read,
        Err(e) => {
            return Err(e);
        },
    };
    let mut layers: Vec<Layer> = Vec::new();
    let ghost mut views: Seq<LayerView> = Seq::empty();
    let mut pos: usize = start;
    let mut k: u64 = 0;
    while k < count
        invariant
            k <= count,
            start <= bytes@.len(),
            pos <= bytes@.len(),
            views.len() == layers@.len(),
            forall|j: int| 0 <= j < views.len() ==> #[trigger] views[j] == layers@[j]@,
            parse_vector(bytes@, 0) == Ok::<(Seq<Double>, int), DecodeError>((inputs@, after_inputs as int)),
            parse_u64(bytes@, after_inputs as int) == Ok::<(u64, int), DecodeError>((count, start as int)),
            parse_layers(bytes@, start as int, k as nat) == Ok::<(Seq<LayerView>, int), DecodeError>(
                (views, pos as int),
            ),
        decreases count - k,
    {
        match get_layer(bytes, pos) {
            Ok((layer, next)) => {
                proof {
                    views = views.push(layer@);
                }
                layers.push(layer);
                pos = next;
            },
            Err(e) => {
                proof {
                    assert(parse_layers(bytes@, start as int, (k + 1) as nat) == Err::<
                        (Seq<LayerView>, int),
                        DecodeError,
                    >(e));
                    lemma_parse_layers_error(bytes@, start as int, (k + 1) as nat, count as nat);
                }
                return Err(e);
            },
        }
        k += 1;
    }
    let network = NeuralNetwork { inputs, layers };
    assert(network@.layers =~= views);
    Ok(network)
}

} // verus!

use std::cell::{Cell, RefCell};

use neuropong::game::controller::{decode_output, PlayerDirection};
use neuropong::neural_network::layers::Layer;
use neuropong::neural_network::neural_network_f::{NetworkError, NeuralNetwork, NeuralNetworkModel};
use neuropong::neural_network::neuron::{ActivationFunction, Neuron, NeuronTrait};
use neuropong::scalar::{Double, Single};

fn d(x: f64) -> Double {
    Double::from_bits(x.to_bits())
}

fn f(x: Double) -> f64 {
    f64::from_bits(x.to_bits())
}

fn ds(xs: &[f64]) -> Vec<Double> {
    xs.iter().map(|x| d(*x)).collect()
}

fn fs(xs: &[Double]) -> Vec<f64> {
    xs.iter().map(|x| f(*x)).collect()
}

fn kernel(weights: &[Double], bias: Double, activation: ActivationFunction, inputs: &[Double]) -> Double {
    let sum: f64 = inputs.iter().zip(weights.iter()).map(|(x, w)| f(*x) * f(*w)).sum::<f64>() + f(bias);
    d(match activation {
        ActivationFunction::Sigmoid => 1.0 / (1.0 + (-sum).exp()),
        ActivationFunction::Relu => {
            if sum > 0.0 {
                sum
            } else {
                0.0
            }
        }
        ActivationFunction::Tanh => sum.tanh(),
        ActivationFunction::Linear => sum,
    })
}

fn neuron(weights: &[f64], bias: f64, activation: ActivationFunction) -> Neuron {
    Neuron::new_seted(ds(weights), d(bias), activation)
}

/// Two inputs, a linear layer of two neurons, a relu layer of two neurons.
fn small_network() -> NeuralNetwork {
    NeuralNetwork {
        inputs: ds(&[0.0, 0.0]),
        layers: vec![
            Layer {
                neurons: vec![
                    neuron(&[1.0, 2.0], 0.5, ActivationFunction::Linear),
                    neuron(&[3.0, 4.0], -0.5, ActivationFunction::Linear),
                ],
            },
            Layer {
                neurons: vec![
                    neuron(&[1.0, -1.0], 0.0, ActivationFunction::Relu),
                    neuron(&[-1.0, 1.0], 0.25, ActivationFunction::Relu),
                ],
            },
        ],
    }
}

fn counting_draw() -> (Cell<u64>, impl Fn(&Cell<u64>) -> Double) {
    (Cell::new(0), |c: &Cell<u64>| {
        c.set(c.get() + 1);
        d(c.get() as f64 / 100.0)
    })
}

#[test]
fn new_gives_the_requested_shape() {
    let (counter, next) = counting_draw();
    let draw = || next(&counter);
    let sizes = vec![5usize, 3];
    let activations = vec![ActivationFunction::Sigmoid, ActivationFunction::Tanh];
    let network = NeuralNetwork::new(4, &sizes, &activations, &draw).unwrap();
    assert_eq!(network.inputs.len(), 4);
    assert!(network.inputs.iter().all(|x| x.to_bits() == 0));
    assert_eq!(network.layers.len(), 2);
    assert_eq!(network.layers[0].neurons.len(), 5);
    assert_eq!(network.layers[1].neurons.len(), 3);
    for n in network.layers[0].neurons.iter() {
        assert_eq!(n.weights.len(), 4);
        assert_eq!(n.activation_function, ActivationFunction::Sigmoid);
        assert_eq!(n.output.to_bits(), 0);
    }
    for n in network.layers[1].neurons.iter() {
        assert_eq!(n.weights.len(), 5);
        assert_eq!(n.activation_function, ActivationFunction::Tanh);
        assert_eq!(n.output.to_bits(), 0);
    }
    // 5 * (4 + 1) + 3 * (5 + 1) values were drawn, each one used once
    assert_eq!(counter.get(), 43);
    let mut genes = fs(&network.all_weights());
    genes.sort_by(|a, b| a.partial_cmp(b).unwrap());
    let expected: Vec<f64> = (1..=43).map(|k| k as f64 / 100.0).collect();
    assert_eq!(genes, expected);
}

#[test]
fn new_accepts_a_first_layer_without_inputs() {
    let draw = || d(0.5);
    let network = NeuralNetwork::new(0, &vec![2], &vec![ActivationFunction::Linear], &draw).unwrap();
    assert_eq!(network.inputs.len(), 0);
    assert_eq!(network.layers[0].neurons[0].weights.len(), 0);
    assert_eq!(fs(&network.all_weights()), vec![0.5, 0.5]);
}

#[test]
fn new_rejects_lists_of_different_length() {
    let draw = || d(0.0);
    let result = NeuralNetwork::new(4, &vec![5, 3], &vec![ActivationFunction::Sigmoid], &draw);
    assert_eq!(result.err(), Some(NetworkError::LengthMismatch));
    let result = NeuralNetwork::new(4, &vec![], &vec![ActivationFunction::Sigmoid], &draw);
    assert_eq!(result.err(), Some(NetworkError::LengthMismatch));
}

#[test]
fn new_rejects_a_network_without_layers() {
    let draw = || d(0.0);
    let result = NeuralNetwork::new(4, &vec![], &vec![], &draw);
    assert_eq!(result.err(), Some(NetworkError::NoLayers));
}

#[test]
fn errors_describe_themselves() {
    assert_eq!(
        NetworkError::LengthMismatch.message(),
        "layer sizes and activation functions must be equally many"
    );
    assert_eq!(NetworkError::NoLayers.message(), "the network has no layers");
}

#[test]
fn feed_threads_the_vector_through_the_layers() {
    let mut network = small_network();
    let outputs = network.feed(&ds(&[1.0, 2.0]), &kernel).unwrap();
    // first layer: 1 + 4 + 0.5 and 3 + 8 - 0.5
    assert_eq!(fs(&network.layers[0].get_outputs()), vec![5.5, 10.5]);
    // second layer: relu(5.5 - 10.5) and relu(-5.5 + 10.5 + 0.25)
    assert_eq!(fs(&outputs), vec![0.0, 5.25]);
    assert_eq!(fs(&network.get_output().unwrap()), vec![0.0, 5.25]);
    assert_eq!(fs(&network.inputs), vec![1.0, 2.0]);
}

#[test]
fn feed_leaves_weights_and_biases_alone() {
    let mut network = small_network();
    let before = network.all_weights();
    network.feed(&ds(&[1.0, 2.0]), &kernel).unwrap();
    assert_eq!(network.all_weights(), before);
}

#[test]
fn feed_is_deterministic() {
    let mut network = small_network();
    let inputs = ds(&[0.3, -1.7]);
    let first = network.feed(&inputs, &kernel).unwrap();
    let after_first = network.clone();
    let second = network.feed(&inputs, &kernel).unwrap();
    assert_eq!(first, second);
    assert_eq!(network.all_weights(), after_first.all_weights());
    assert_eq!(network.layers[0].get_outputs(), after_first.layers[0].get_outputs());

    let mut other = small_network();
    assert_eq!(other.feed(&inputs, &kernel).unwrap(), first);
}

#[test]
fn feed_evaluates_each_activation() {
    let mut network = NeuralNetwork {
        inputs: vec![],
        layers: vec![Layer {
            neurons: vec![
                neuron(&[1.0], 0.0, ActivationFunction::Sigmoid),
                neuron(&[1.0], 0.0, ActivationFunction::Relu),
                neuron(&[1.0], 0.0, ActivationFunction::Tanh),
                neuron(&[2.0], 1.0, ActivationFunction::Linear),
            ],
        }],
    };
    let outputs = fs(&network.feed(&ds(&[0.0]), &kernel).unwrap());
    assert_eq!(outputs, vec![0.5, 0.0, 0.0, 1.0]);
    let outputs = fs(&network.feed(&ds(&[-3.0]), &kernel).unwrap());
    assert_eq!(outputs[1], 0.0);
    assert_eq!(outputs[2], (-3.0f64).tanh());
    assert_eq!(outputs[3], -5.0);
}

#[test]
fn feed_without_layers_stores_the_inputs_and_fails() {
    let mut network = NeuralNetwork { inputs: vec![], layers: vec![] };
    let result = network.feed(&ds(&[1.0, 2.0, 3.0]), &kernel);
    assert_eq!(result.err(), Some(NetworkError::NoLayers));
    assert_eq!(fs(&network.inputs), vec![1.0, 2.0, 3.0]);
    assert_eq!(network.get_output().err(), Some(NetworkError::NoLayers));
}

#[test]
fn get_output_reads_the_last_layer() {
    let mut network = small_network();
    network.layers[1].neurons[0].output = d(7.0);
    network.layers[1].neurons[1].output = d(-8.0);
    assert_eq!(fs(&network.get_output().unwrap()), vec![7.0, -8.0]);
}

#[test]
fn a_clone_shares_nothing_with_its_source() {
    let source = small_network();
    let before = source.all_weights();
    let mut copy = source.clone();
    assert_eq!(copy.all_weights(), before);
    let shift = |g: Double| d(f(g) + 1.0);
    copy.all_weights_mut(&shift);
    copy.layers[0].neurons[0].mutate_bias(d(3.0), &|a: Double, b: Double| d(f(a) + f(b)));
    assert_eq!(source.all_weights(), before);
    assert_ne!(copy.all_weights(), before);
}

#[test]
fn all_weights_lists_weights_then_bias_neuron_by_neuron() {
    let network = small_network();
    assert_eq!(
        fs(&network.all_weights()),
        vec![1.0, 2.0, 0.5, 3.0, 4.0, -0.5, 1.0, -1.0, 0.0, -1.0, 1.0, 0.25]
    );
}

#[test]
fn all_weights_mut_visits_in_the_same_order() {
    let mut network = small_network();
    let seen: RefCell<Vec<f64>> = RefCell::new(Vec::new());
    let double = |g: Double| {
        seen.borrow_mut().push(f(g));
        d(f(g) * 2.0)
    };
    network.all_weights_mut(&double);
    assert_eq!(
        *seen.borrow(),
        vec![1.0, 2.0, 0.5, 3.0, 4.0, -0.5, 1.0, -1.0, 0.0, -1.0, 1.0, 0.25]
    );
    assert_eq!(
        fs(&network.all_weights()),
        vec![2.0, 4.0, 1.0, 6.0, 8.0, -1.0, 2.0, -2.0, 0.0, -2.0, 2.0, 0.5]
    );
    assert_eq!(network.layers.len(), 2);
    assert_eq!(network.layers[0].neurons[1].activation_function, ActivationFunction::Linear);
    assert_eq!(network.inputs.len(), 2);
}

#[test]
fn mut_layers_gives_the_layers() {
    let mut network = small_network();
    network.mut_layers().pop();
    assert_eq!(network.layers.len(), 1);
    network.layers[0].mut_neurons().pop();
    assert_eq!(network.layers[0].neurons.len(), 1);
}

#[test]
fn layer_new_and_feed() {
    let draw = || d(0.25);
    let mut layer = Layer::new(3, 2, ActivationFunction::Linear, &draw);
    assert_eq!(layer.neurons.len(), 3);
    layer.feed(&ds(&[4.0, 8.0]), &kernel);
    // 0.25 * 4 + 0.25 * 8 + 0.25
    assert_eq!(fs(&layer.get_outputs()), vec![3.25, 3.25, 3.25]);
}

#[test]
fn neuron_construction_and_access() {
    let draw = || d(-1.0);
    let n = <Neuron as NeuronTrait>::new(3, ActivationFunction::Tanh, &draw);
    assert_eq!(fs(n.get_weights()), vec![-1.0, -1.0, -1.0]);
    assert_eq!(f(n.get_bias()), -1.0);
    assert_eq!(f(n.get_output()), 0.0);
    assert_eq!(n.activation_function(), ActivationFunction::Tanh);
    assert_eq!(n.position, (Single::zero(), Single::zero()));

    let mut m = Neuron::new_seted(ds(&[1.0, 2.0]), d(3.0), ActivationFunction::Relu);
    assert_eq!(fs(m.get_weights()), vec![1.0, 2.0]);
    assert_eq!(f(m.get_bias()), 3.0);
    assert_eq!(f(m.get_output()), 0.0);
    m.set_weights(ds(&[5.0, 6.0]));
    m.set_bias(d(7.0));
    assert_eq!(fs(m.get_weights()), vec![5.0, 6.0]);
    assert_eq!(f(m.get_bias()), 7.0);

    m.calculate_output(&ds(&[1.0, 1.0]), &kernel);
    assert_eq!(f(m.get_output()), 18.0);
    let copy = <Neuron as NeuronTrait>::new_clone(&m);
    assert_eq!(copy.weights, m.weights);
    assert_eq!(copy.bias, m.bias);
    assert_eq!(copy.output, m.output);
    assert_eq!(copy.activation_function, m.activation_function);
}

#[test]
fn neuron_mutation_adds_the_delta() {
    let plus = |a: Double, b: Double| d(f(a) + f(b));
    let mut n = Neuron::new_seted(ds(&[1.0, 2.0]), d(3.0), ActivationFunction::Relu);
    n.mutate_weight(1, d(0.5), &plus);
    assert_eq!(fs(&n.weights), vec![1.0, 2.5]);
    n.mutate_weight(2, d(0.5), &plus);
    assert_eq!(fs(&n.weights), vec![1.0, 2.5]);
    n.mutate_bias(d(-1.0), &plus);
    assert_eq!(f(n.bias), 2.0);
}

#[test]
fn model_round() {
    let model = NeuralNetworkModel::new(
        4,
        vec![5, 3],
        vec![ActivationFunction::Sigmoid, ActivationFunction::Relu],
    );
    assert_eq!(model.input_layer_size, 4);
    assert_eq!(model.hidden_layers_sizes, vec![5, 3]);
    assert_eq!(model.activation_functions, vec![ActivationFunction::Sigmoid, ActivationFunction::Relu]);
    let copy = model.clone();
    assert_eq!(copy.hidden_layers_sizes, vec![5, 3]);

    let draw = || d(0.125);
    let network = model.generate(&draw);
    assert_eq!(network.layers.len(), 2);
    assert_eq!(network.layers[0].neurons.len(), 5);
    assert_eq!(network.layers[1].neurons[2].weights.len(), 5);
    let other = NeuralNetwork::from_model(&model, &draw);
    assert_eq!(other.all_weights(), network.all_weights());

    // reading a model off a network skips the first layer
    let read = NeuralNetworkModel::from_neural_network(network);
    assert_eq!(read.input_layer_size, 4);
    assert_eq!(read.hidden_layers_sizes, vec![3]);
    assert_eq!(read.activation_functions, vec![ActivationFunction::Relu]);

    let empty = NeuralNetworkModel::from_neural_network(NeuralNetwork { inputs: vec![], layers: vec![] });
    assert_eq!(empty.input_layer_size, 0);
    assert!(empty.hidden_layers_sizes.is_empty());
}

/// A network of one linear layer that puts out its three first inputs.
fn echo_network() -> NeuralNetwork {
    NeuralNetwork {
        inputs: ds(&[0.0; 4]),
        layers: vec![Layer {
            neurons: vec![
                neuron(&[1.0, 0.0, 0.0, 0.0], 0.0, ActivationFunction::Linear),
                neuron(&[0.0, 1.0, 0.0, 0.0], 0.0, ActivationFunction::Linear),
                neuron(&[0.0, 0.0, 1.0, 0.0], 0.0, ActivationFunction::Linear),
            ],
        }],
    }
}

fn decide(up: f64, down: f64, speed: f64) -> (PlayerDirection, f64) {
    let mut network = echo_network();
    let (direction, s) = network.get_input(d(up), d(down), d(speed), d(9.0), &kernel);
    assert_eq!(fs(&network.inputs), vec![up, down, speed, 9.0].iter().map(|x| *x).collect::<Vec<f64>>());
    (direction, f(s))
}

#[test]
fn a_network_decides_by_its_three_outputs() {
    assert_eq!(decide(0.2, 0.9, 1.5), (PlayerDirection::Up, 1.5));
    assert_eq!(decide(0.2, 0.1, -2.0), (PlayerDirection::Up, -2.0));
    assert_eq!(decide(0.7, 0.9, 0.0), (PlayerDirection::Idle, 0.0));
    assert_eq!(decide(0.7, 0.5, 3.0), (PlayerDirection::Idle, 3.0));
    assert_eq!(decide(0.7, 0.2, 3.0), (PlayerDirection::Idle, 3.0));
    assert_eq!(decide(0.5, 0.9, 1.0), (PlayerDirection::Down, 1.0));
    assert_eq!(decide(0.5, 0.5, 1.0), (PlayerDirection::Idle, 1.0));
    assert_eq!(decide(-0.0, 0.0, 1e9), (PlayerDirection::Up, 1e9));
}

#[test]
fn a_nan_output_is_no_signal() {
    let read = |up: f64, down: f64| decode_output(&ds(&[up, down, 1.0])).0;
    assert_eq!(read(f64::NAN, 0.9), PlayerDirection::Down);
    assert_eq!(read(f64::NAN, 0.1), PlayerDirection::Idle);
    assert_eq!(read(f64::NAN, f64::NAN), PlayerDirection::Idle);
    assert_eq!(read(0.1, f64::NAN), PlayerDirection::Up);
    assert_eq!(read(0.9, f64::NAN), PlayerDirection::Idle);
    let (_, speed) = decode_output(&ds(&[0.1, 0.2, f64::NAN]));
    assert!(f(speed).is_nan());
}

#[test]
fn decoding_looks_at_three_outputs_only() {
    assert_eq!(decode_output(&ds(&[0.1, 0.9, 2.0, 77.0])), (PlayerDirection::Up, d(2.0)));
    assert_eq!(decode_output(&ds(&[f64::INFINITY, f64::INFINITY, -1.0])), (PlayerDirection::Idle, d(-1.0)));
    assert_eq!(decode_output(&ds(&[f64::INFINITY, f64::NEG_INFINITY, -1.0])), (PlayerDirection::Idle, d(-1.0)));
    assert_eq!(decode_output(&ds(&[f64::NEG_INFINITY, f64::INFINITY, -1.0])), (PlayerDirection::Up, d(-1.0)));
}

#[test]
fn genes_of_a_layer_and_of_a_neuron() {
    let mut network = small_network();
    let mut genes = ds(&[9.0]);
    network.layers[1].append_genes(&mut genes);
    assert_eq!(fs(&genes), vec![9.0, 1.0, -1.0, 0.0, -1.0, 1.0, 0.25]);

    let negate = |g: Double| d(-f(g));
    network.layers[0].update_genes(&negate);
    assert_eq!(
        fs(&network.all_weights()),
        vec![-1.0, -2.0, -0.5, -3.0, -4.0, 0.5, 1.0, -1.0, 0.0, -1.0, 1.0, 0.25]
    );
    network.layers[1].neurons[1].update_genes(&negate);
    assert_eq!(fs(&network.layers[1].neurons[1].weights), vec![1.0, -1.0]);
    assert_eq!(f(network.layers[1].neurons[1].bias), -0.25);
    assert_eq!(network.layers[1].neurons[1].activation_function, ActivationFunction::Relu);
}

use neuropong::neural_network::artifact::{decode, encode, DecodeError};
use neuropong::neural_network::layers::Layer;
use neuropong::neural_network::neural_network_f::NeuralNetwork;
use neuropong::neural_network::neuron::{ActivationFunction, Neuron};
use neuropong::scalar::{Double, Single};

fn d(x: f64) -> Double {
    Double::from_bits(x.to_bits())
}

fn s(x: f32) -> Single {
    Single::from_bits(x.to_bits())
}

fn neuron(weights: &[f64], bias: f64, output: f64, activation: ActivationFunction, at: (f32, f32)) -> Neuron {
    Neuron {
        weights: weights.iter().map(|w| d(*w)).collect(),
        bias: d(bias),
        output: d(output),
        activation_function: activation,
        position: (s(at.0), s(at.1)),
    }
}

fn sample() -> NeuralNetwork {
    NeuralNetwork {
        inputs: vec![d(0.25), d(-3.5), d(f64::NAN)],
        layers: vec![
            Layer {
                neurons: vec![
                    neuron(&[1.0, -2.0, 0.5], 0.1, 0.9, ActivationFunction::Sigmoid, (50.0, 80.0)),
                    neuron(&[1e-300, f64::MAX, -0.0], -0.1, 0.0, ActivationFunction::Relu, (50.0, 110.0)),
                ],
            },
            Layer { neurons: vec![] },
            Layer {
                neurons: vec![
                    neuron(&[], 7.0, -7.0, ActivationFunction::Tanh, (0.0, -1.5)),
                    neuron(&[3.0, 4.0], 5.0, 6.0, ActivationFunction::Linear, (f32::INFINITY, 2.0)),
                ],
            },
        ],
    }
}

type PlainNeuron = (Vec<f64>, f64, f64, u32, (f32, f32));
type PlainNetwork = (Vec<f64>, Vec<Vec<PlainNeuron>>);

fn index(activation: ActivationFunction) -> u32 {
    match activation {
        ActivationFunction::Sigmoid => 0,
        ActivationFunction::Relu => 1,
        ActivationFunction::Tanh => 2,
        ActivationFunction::Linear => 3,
    }
}

/// The network as the plain value that `bincode` writes in the same way as
/// a network with derived serialization.
fn plain(network: &NeuralNetwork) -> PlainNetwork {
    (
        network.inputs.iter().map(|x| f64::from_bits(x.to_bits())).collect(),
        network
            .layers
            .iter()
            .map(|layer| {
                layer
                    .neurons
                    .iter()
                    .map(|n| {
                        (
                            n.weights.iter().map(|w| f64::from_bits(w.to_bits())).collect(),
                            f64::from_bits(n.bias.to_bits()),
                            f64::from_bits(n.output.to_bits()),
                            index(n.activation_function),
                            (
                                f32::from_bits(n.position.0.to_bits()),
                                f32::from_bits(n.position.1.to_bits()),
                            ),
                        )
                    })
                    .collect()
            })
            .collect(),
    )
}

fn same(a: &NeuralNetwork, b: &NeuralNetwork) -> bool {
    a.inputs == b.inputs
        && a.layers.len() == b.layers.len()
        && a.layers.iter().zip(b.layers.iter()).all(|(x, y)| {
            x.neurons.len() == y.neurons.len()
                && x.neurons.iter().zip(y.neurons.iter()).all(|(n, m)| {
                    n.weights == m.weights
                        && n.bias == m.bias
                        && n.output == m.output
                        && n.activation_function == m.activation_function
                        && n.position == m.position
                })
        })
}

#[test]
fn a_tiny_artifact_byte_by_byte() {
    let network = NeuralNetwork {
        inputs: vec![d(1.0)],
        layers: vec![Layer { neurons: vec![neuron(&[2.0], -1.0, 0.5, ActivationFunction::Tanh, (1.0, -2.0))] }],
    };
    let mut expected: Vec<u8> = Vec::new();
    expected.extend_from_slice(&[1, 0, 0, 0, 0, 0, 0, 0]); // one input
    expected.extend_from_slice(&[0, 0, 0, 0, 0, 0, 0xF0, 0x3F]); // 1.0
    expected.extend_from_slice(&[1, 0, 0, 0, 0, 0, 0, 0]); // one layer
    expected.extend_from_slice(&[1, 0, 0, 0, 0, 0, 0, 0]); // one neuron
    expected.extend_from_slice(&[1, 0, 0, 0, 0, 0, 0, 0]); // one weight
    expected.extend_from_slice(&[0, 0, 0, 0, 0, 0, 0x00, 0x40]); // 2.0
    expected.extend_from_slice(&[0, 0, 0, 0, 0, 0, 0xF0, 0xBF]); // bias -1.0
    expected.extend_from_slice(&[0, 0, 0, 0, 0, 0, 0xE0, 0x3F]); // output 0.5
    expected.extend_from_slice(&[2, 0, 0, 0]); // tanh
    expected.extend_from_slice(&[0, 0, 0x80, 0x3F]); // x 1.0
    expected.extend_from_slice(&[0, 0, 0x00, 0xC0]); // y -2.0
    assert_eq!(encode(&network), expected);
}

#[test]
fn the_artifact_is_what_bincode_writes() {
    let network = sample();
    assert_eq!(encode(&network), bincode::serialize(&plain(&network)).unwrap());
    let empty = NeuralNetwork { inputs: vec![], layers: vec![] };
    assert_eq!(encode(&empty), bincode::serialize(&plain(&empty)).unwrap());
    assert_eq!(encode(&empty), vec![0u8; 16]);
}

#[test]
fn bincode_reads_the_artifact() {
    let network = sample();
    let read: PlainNetwork = bincode::deserialize(&encode(&network)).unwrap();
    let expected = plain(&network);
    assert_eq!(read.0.len(), expected.0.len());
    assert_eq!(
        bincode::serialize(&read).unwrap(),
        bincode::serialize(&expected).unwrap()
    );
}

#[test]
fn reading_an_artifact_gives_the_network_back() {
    let network = sample();
    let read = decode(&encode(&network)).unwrap();
    assert!(same(&read, &network));
    // bit for bit: the NaN among the inputs and the negative zero survive
    assert_eq!(read.inputs[2].to_bits(), f64::NAN.to_bits());
    assert_eq!(read.layers[0].neurons[1].weights[2].to_bits(), (-0.0f64).to_bits());
    assert_eq!(encode(&read), encode(&network));
}

#[test]
fn reading_what_bincode_wrote() {
    let network = sample();
    let read = decode(&bincode::serialize(&plain(&network)).unwrap()).unwrap();
    assert!(same(&read, &network));
}

#[test]
fn bytes_after_the_network_are_ignored() {
    let network = sample();
    let mut bytes = encode(&network);
    bytes.extend_from_slice(&[1, 2, 3, 4, 5]);
    assert!(same(&decode(&bytes).unwrap(), &network));
}

#[test]
fn a_truncated_artifact_is_rejected() {
    let network = sample();
    let bytes = encode(&network);
    for cut in 0..bytes.len() {
        assert_eq!(decode(&bytes[..cut]).err(), Some(DecodeError::UnexpectedEnd), "cut at {cut}");
        assert!(bincode::deserialize::<PlainNetwork>(&bytes[..cut]).is_err());
    }
}

#[test]
fn an_unknown_activation_is_rejected() {
    let network = NeuralNetwork {
        inputs: vec![],
        layers: vec![Layer { neurons: vec![neuron(&[], 0.0, 0.0, ActivationFunction::Linear, (0.0, 0.0))] }],
    };
    let mut bytes = encode(&network);
    // inputs 8, layers 8, neurons 8, weights 8, bias 8, output 8: the index is at 48
    assert_eq!(&bytes[48..52], &[3, 0, 0, 0]);
    bytes[48] = 4;
    assert_eq!(decode(&bytes).err(), Some(DecodeError::InvalidActivation));
    bytes[48] = 0;
    bytes[51] = 1;
    assert_eq!(decode(&bytes).err(), Some(DecodeError::InvalidActivation));
    bytes[51] = 0;
    assert_eq!(decode(&bytes).unwrap().layers[0].neurons[0].activation_function, ActivationFunction::Sigmoid);
}

#[test]
fn a_count_beyond_the_bytes_is_rejected() {
    let mut bytes = vec![0xFFu8; 8];
    bytes.extend_from_slice(&[0u8; 64]);
    assert_eq!(decode(&bytes).err(), Some(DecodeError::UnexpectedEnd));
    // no inputs, then more layers than there are bytes
    let mut bytes = vec![0u8; 8];
    bytes.extend_from_slice(&[0xFF, 0xFF, 0xFF, 0xFF, 0, 0, 0, 0]);
    bytes.extend_from_slice(&[0u8; 80]);
    assert_eq!(decode(&bytes).err(), Some(DecodeError::UnexpectedEnd));
}

#[test]
fn a_layout_of_another_shape_is_no_network() {
    // a vector of four-byte integers is not an artifact
    let other: Vec<u32> = vec![7, 8, 9];
    let bytes = bincode::serialize(&other).unwrap();
    assert!(decode(&bytes).is_err());
}

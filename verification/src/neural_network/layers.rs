//! A layer: neurons that are evaluated on one shared input vector.

use vstd::prelude::*;
use crate::scalar::Double;
use crate::neural_network::neuron::{
    accepts_neurons, evaluates, lemma_updated_genes_concat, updated_genes, ActivationFunction, Neuron,
    NeuronTrait, NeuronView,
};

verus! {

/// An ordered sequence of neurons.
#[derive(Debug)]
pub struct Layer {
    pub neurons: Vec<Neuron>,
}

/// The mathematical content of a [`Layer`].
pub struct LayerView {
    pub neurons: Seq<NeuronView>,
}

impl View for Layer {
    type V = LayerView;

    open spec fn view(&self) -> LayerView {
        LayerView { neurons: Seq::new(self.neurons@.len(), |j: int| self.neurons@[j]@) }
    }
}

impl LayerView {
    /// Every neuron takes `width` inputs.
    pub open spec fn takes(self, width: nat) -> bool {
        forall|j: int| 0 <= j < self.neurons.len() ==> (#[trigger] self.neurons[j]).weights.len() == width
    }

    /// The layer's weights and biases: neuron by neuron, a neuron's weights
    /// and then its bias.
    pub open spec fn genes(self) -> Seq<Double> {
        self.neurons.map_values(|n: NeuronView| n.genes()).flatten()
    }

    /// `self` differs from `other` at most in the values of weights and
    /// biases.
    pub open spec fn same_frame(self, other: LayerView) -> bool {
        &&& self.neurons.len() == other.neurons.len()
        &&& forall|j: int| 0 <= j < self.neurons.len() ==> (#[trigger] self.neurons[j]).same_frame(other.neurons[j])
    }

    /// The layer cut down to its first `j` neurons.
    pub open spec fn first(self, j: int) -> LayerView {
        LayerView { neurons: self.neurons.take(j) }
    }

    /// The neurons' last outputs, in neuron order.
    pub open spec fn outputs(self) -> Seq<Double> {
        Seq::new(self.neurons.len(), |j: int| self.neurons[j].output)
    }

    /// `self` is `before` after an evaluation on `inputs` with `kernel`:
    /// every neuron holds an output that the kernel can return for it, and
    /// is otherwise as before.
    pub open spec fn fed_from<K: Fn(&[Double], Double, ActivationFunction, &[Double]) -> Double>(
        self,
        before: LayerView,
        inputs: Seq<Double>,
        kernel: &K,
    ) -> bool {
        &&& self.neurons.len() == before.neurons.len()
        &&& forall|j: int|
            0 <= j < before.neurons.len() ==> {
                &&& #[trigger] self.neurons[j] == (NeuronView {
                    output: self.neurons[j].output,
                    ..before.neurons[j]
                })
                &&& evaluates(
                    kernel,
                    before.neurons[j].weights,
                    before.neurons[j].bias,
                    before.neurons[j].activation_function,
                    inputs,
                    self.neurons[j].output,
                )
            }
    }
}

/// The genes of the first `j + 1` neurons are the genes of the first `j`,
/// followed by those of neuron `j`.
pub proof fn lemma_layer_genes_step(layer: LayerView, j: int)
    requires
        0 <= j < layer.neurons.len(),
    ensures
        layer.first(j + 1).genes() == layer.first(j).genes() + layer.neurons[j].genes(),
        layer.first(layer.neurons.len() as int) == layer,
        layer.first(0).genes() == Seq::<Double>::empty(),
{
    let f = |n: NeuronView| n.genes();
    assert(layer.neurons.take(j + 1).map_values(f) =~= layer.neurons.take(j).map_values(f).push(
        layer.neurons[j].genes(),
    ));
    layer.neurons.take(j).map_values(f).lemma_flatten_push(layer.neurons[j].genes());
    assert(layer.neurons.take(layer.neurons.len() as int) =~= layer.neurons);
    assert(layer.neurons.take(0).map_values(f) =~= Seq::<Seq<Double>>::empty());
}

impl Clone for Layer {
    fn clone(&self) -> (copy: Self)
        ensures
            copy@ == self@,
    {
        let mut neurons: Vec<Neuron> = Vec::new();
        let n = self.neurons.len();
        let mut j: usize = 0;
        while j < n
            invariant
                j <= n,
                n == self.neurons@.len(),
                neurons@.len() == j,
                forall|k: int| 0 <= k < j ==> (#[trigger] neurons@[k])@ == self.neurons@[k]@,
            decreases n - j,
        {
            neurons.push(self.neurons[j].clone());
            j += 1;
        }
        let copy = Layer { neurons };
        assert(copy@.neurons =~= self@.neurons);
        copy
    }
}

impl Layer {
    /// A layer of `neurons_len` neurons of `input_len` weights each, all
    /// with the same activation; weights and biases are values returned by
    /// `draw`.
    pub fn new<D: Fn() -> Double>(
        neurons_len: usize,
        input_len: usize,
        activation_function: ActivationFunction,
        draw: &D,
    ) -> (layer: Self)
        requires
            call_requires(draw, ()),
        ensures
            layer@.neurons.len() == neurons_len,
            layer@.takes(input_len as nat),
            forall|j: int|
                0 <= j < neurons_len ==> {
                    &&& (#[trigger] layer@.neurons[j]).activation_function == activation_function
                    &&& layer@.neurons[j].output == (Double { bits: 0 })
                    &&& call_ensures(draw, (), layer@.neurons[j].bias)
                    &&& forall|k: int|
                        0 <= k < input_len ==> call_ensures(draw, (), #[trigger] layer@.neurons[j].weights[k])
                },
    {
        let mut neurons: Vec<Neuron> = Vec::new();
        let mut j: usize = 0;
        while j < neurons_len
            invariant
                j <= neurons_len,
                neurons@.len() == j,
                call_requires(draw, ()),
                forall|i: int|
                    0 <= i < j ==> {
                        &&& (#[trigger] neurons@[i])@.weights.len() == input_len
                        &&& neurons@[i]@.activation_function == activation_function
                        &&& neurons@[i]@.output == (Double { bits: 0 })
                        &&& call_ensures(draw, (), neurons@[i]@.bias)
                        &&& forall|k: int|
                            0 <= k < input_len ==> call_ensures(draw, (), #[trigger] neurons@[i]@.weights[k])
                    },
            decreases neurons_len - j,
        {
            let neuron = Neuron::new(input_len, activation_function, draw);
            neurons.push(neuron);
            j += 1;
        }
        Layer { neurons }
    }

    /// Evaluates every neuron on the same `input`, in neuron order.
    pub fn feed<K: Fn(&[Double], Double, ActivationFunction, &[Double]) -> Double>(
        &mut self,
        input: &[Double],
        kernel: &K,
    )
        requires
            old(self)@.takes(input@.len()),
            accepts_neurons(kernel),
        ensures
            final(self)@.fed_from(old(self)@, input@, kernel),
    {
        let n = self.neurons.len();
        let mut j: usize = 0;
        while j < n
            invariant
                j <= n,
                n == old(self).neurons@.len(),
                self.neurons@.len() == n,
                old(self)@.takes(input@.len()),
                accepts_neurons(kernel),
                forall|k: int| j <= k < n ==> (#[trigger] self.neurons@[k])@ == old(self).neurons@[k]@,
                forall|k: int|
                    0 <= k < j ==> {
                        &&& (#[trigger] self.neurons@[k])@ == (NeuronView {
                            output: self.neurons@[k]@.output,
                            ..old(self).neurons@[k]@
                        })
                        &&& evaluates(
                            kernel,
                            old(self).neurons@[k]@.weights,
                            old(self).neurons@[k]@.bias,
                            old(self).neurons@[k]@.activation_function,
                            input@,
                            self.neurons@[k]@.output,
                        )
                    },
            decreases n - j,
        {
            assert(old(self)@.neurons[j as int] == old(self).neurons@[j as int]@);
            self.neurons[j].calculate_output(input, kernel);
            j += 1;
        }
        assert forall|k: int| 0 <= k < n implies {
            &&& #[trigger] self@.neurons[k] == (NeuronView {
                output: self@.neurons[k].output,
                ..old(self)@.neurons[k]
            })
            &&& evaluates(
                kernel,
                old(self)@.neurons[k].weights,
                old(self)@.neurons[k].bias,
                old(self)@.neurons[k].activation_function,
                input@,
                self@.neurons[k].output,
            )
        } by {
            assert(self@.neurons[k] == self.neurons@[k]@);
            assert(old(self)@.neurons[k] == old(self).neurons@[k]@);
        }
    }

    /// The neurons' last outputs, in neuron order.
    pub fn get_outputs(&self) -> (outputs: Vec<Double>)
        ensures
            outputs@ == self@.outputs(),
    {
        let mut outputs: Vec<Double> = Vec::new();
        let n = self.neurons.len();
        let mut j: usize = 0;
        while j < n
            invariant
                j <= n,
                n == self.neurons@.len(),
                outputs@.len() == j,
                forall|k: int| 0 <= k < j ==> #[trigger] outputs@[k] == self.neurons@[k]@.output,
            decreases n - j,
        {
            outputs.push(self.neurons[j].get_output());
            j += 1;
        }
        assert(outputs@ =~= self@.outputs());
        outputs
    }

    /// Replaces every weight and bias of the layer by what `update` returns
    /// for it, in the order of [`LayerView::genes`].
    pub fn update_genes<F: Fn(Double) -> Double>(&mut self, update: &F)
        requires
            forall|g: Double| call_requires(update, (g,)),
        ensures
            final(self)@.same_frame(old(self)@),
            updated_genes(old(self)@.genes(), final(self)@.genes(), update),
    {
        let n = self.neurons.len();
        let mut j: usize = 0;
        proof {
            if n > 0 {
                lemma_layer_genes_step(old(self)@, 0);
                lemma_layer_genes_step(self@, 0);
            }
        }
        while j < n
            invariant
                j <= n,
                n == old(self).neurons@.len(),
                self.neurons@.len() == n,
                forall|g: Double| call_requires(update, (g,)),
                forall|k: int| j <= k < n ==> (#[trigger] self.neurons@[k])@ == old(self).neurons@[k]@,
                forall|k: int| 0 <= k < j ==> (#[trigger] self.neurons@[k])@.same_frame(old(self).neurons@[k]@),
                n > 0 ==> updated_genes(old(self)@.first(j as int).genes(), self@.first(j as int).genes(), update),
            decreases n - j,
        {
            let ghost before = self@;
            self.neurons[j].update_genes(update);
            proof {
                assert(self@.first(j as int).neurons =~= before.first(j as int).neurons);
                lemma_layer_genes_step(old(self)@, j as int);
                lemma_layer_genes_step(self@, j as int);
                assert(self@.neurons[j as int] == self.neurons@[j as int]@);
                assert(old(self)@.neurons[j as int] == old(self).neurons@[j as int]@);
                lemma_updated_genes_concat(
                    old(self)@.first(j as int).genes(),
                    self@.first(j as int).genes(),
                    old(self)@.neurons[j as int].genes(),
                    self@.neurons[j as int].genes(),
                    update,
                );
            }
            j += 1;
        }
        proof {
            if n > 0 {
                lemma_layer_genes_step(old(self)@, n - 1);
                lemma_layer_genes_step(self@, n - 1);
            } else {
                assert(self@.neurons =~= old(self)@.neurons);
            }
            assert forall|k: int| 0 <= k < n implies (#[trigger] self@.neurons[k]).same_frame(old(self)@.neurons[k]) by {
                assert(self@.neurons[k] == self.neurons@[k]@);
                assert(old(self)@.neurons[k] == old(self).neurons@[k]@);
            }
        }
    }

    /// Appends the layer's weights and biases to `genes`, in the order of
    /// [`LayerView::genes`].
    pub fn append_genes(&self, genes: &mut Vec<Double>)
        ensures
            final(genes)@ == old(genes)@ + self@.genes(),
    {
        let n = self.neurons.len();
        let mut j: usize = 0;
        proof {
            if n > 0 {
                lemma_layer_genes_step(self@, 0);
            } else {
                assert(self@.neurons.map_values(|n: NeuronView| n.genes()) =~= Seq::<Seq<Double>>::empty());
            }
            assert(genes@ =~= old(genes)@ + Seq::<Double>::empty());
        }
        while j < n
            invariant
                j <= n,
                n == self.neurons@.len(),
                n > 0 ==> genes@ == old(genes)@ + self@.first(j as int).genes(),
                n == 0 ==> genes@ == old(genes)@ + self@.genes(),
            decreases n - j,
        {
            let ghost before = genes@;
            let neuron = &self.neurons[j];
            let m = neuron.weights.len();
            let mut k: usize = 0;
            while k < m
                invariant
                    k <= m,
                    m == neuron.weights@.len(),
                    genes@ == before + neuron.weights@.take(k as int),
                decreases m - k,
            {
                genes.push(neuron.weights[k]);
                assert(neuron.weights@.take(k + 1) =~= neuron.weights@.take(k as int).push(neuron.weights@[k as int]));
                k += 1;
            }
            genes.push(neuron.bias);
            proof {
                assert(neuron.weights@.take(m as int) =~= neuron.weights@);
                assert(self@.neurons[j as int] == neuron@);
                lemma_layer_genes_step(self@, j as int);
                assert(genes@ =~= old(genes)@ + self@.first(j + 1).genes());
            }
            j += 1;
        }
    }

    /// The neurons, for direct mutation.
    pub fn mut_neurons(&mut self) -> (neurons: &mut Vec<Neuron>)
        ensures
            *neurons == old(self).neurons,
            final(self).neurons == *final(neurons),
    {
        &mut self.neurons
    }
}

} // verus!

//! A single neuron: weights, bias, activation tag and last output.

use vstd::prelude::*;
use crate::scalar::{Double, Single};

verus! {

/// The activation functions a neuron can be tagged with.
#[derive(Clone, Copy, Debug, PartialEq, Eq, Structural)]
pub enum ActivationFunction {
    Sigmoid,
    Relu,
    Tanh,
    Linear,
}

/// One neuron. `output` is transient: every evaluation overwrites it.
/// `position` is where a renderer last drew the neuron; it is carried but
/// never read here.
#[derive(Debug)]
pub struct Neuron {
    pub weights: Vec<Double>,
    pub bias: Double,
    pub output: Double,
    pub activation_function: ActivationFunction,
    pub position: (Single, Single),
}

/// The mathematical content of a [`Neuron`].
pub struct NeuronView {
    pub weights: Seq<Double>,
    pub bias: Double,
    pub output: Double,
    pub activation_function: ActivationFunction,
    pub position: (Single, Single),
}

impl View for Neuron {
    type V = NeuronView;

    open spec fn view(&self) -> NeuronView {
        NeuronView {
            weights: self.weights@,
            bias: self.bias,
            output: self.output,
            activation_function: self.activation_function,
            position: self.position,
        }
    }
}

impl NeuronView {
    /// The neuron's weights, then its bias.
    pub open spec fn genes(self) -> Seq<Double> {
        self.weights.push(self.bias)
    }

    /// `self` differs from `other` at most in the values of its weights and
    /// of its bias.
    pub open spec fn same_frame(self, other: NeuronView) -> bool {
        &&& self.weights.len() == other.weights.len()
        &&& self.output == other.output
        &&& self.activation_function == other.activation_function
        &&& self.position == other.position
    }
}

/// `after` holds, gene for gene, a value that `update` can return for the
/// gene of `before`.
pub open spec fn updated_genes<F: Fn(Double) -> Double>(before: Seq<Double>, after: Seq<Double>, update: &F) -> bool {
    &&& after.len() == before.len()
    &&& forall|g: int| 0 <= g < before.len() ==> call_ensures(update, (before[g],), #[trigger] after[g])
}

/// Updating two runs of genes updates their concatenation.
pub proof fn lemma_updated_genes_concat<F: Fn(Double) -> Double>(
    before_head: Seq<Double>,
    after_head: Seq<Double>,
    before_tail: Seq<Double>,
    after_tail: Seq<Double>,
    update: &F,
)
    requires
        updated_genes(before_head, after_head, update),
        updated_genes(before_tail, after_tail, update),
    ensures
        updated_genes(before_head + before_tail, after_head + after_tail, update),
{
    let before = before_head + before_tail;
    let after = after_head + after_tail;
    assert forall|g: int| 0 <= g < before.len() implies call_ensures(update, (before[g],), #[trigger] after[g]) by {
        if g < before_head.len() {
            assert(after[g] == after_head[g]);
        } else {
            assert(after[g] == after_tail[g - before_head.len()]);
        }
    }
}

/// `out` is a value that `kernel` can return for a neuron with these
/// weights, bias and activation on these inputs.
///
/// The kernel is the arithmetic of one neuron (weighted sum, bias,
/// activation); it rounds, so it is supplied by the caller.
pub open spec fn evaluates<K: Fn(&[Double], Double, ActivationFunction, &[Double]) -> Double>(
    kernel: &K,
    weights: Seq<Double>,
    bias: Double,
    activation_function: ActivationFunction,
    inputs: Seq<Double>,
    out: Double,
) -> bool {
    exists|w: &[Double], x: &[Double]|
        w@ == weights && x@ == inputs && #[trigger] call_ensures(
            kernel,
            (w, bias, activation_function, x),
            out,
        )
}

/// `kernel` is a function of what it is given: on one neuron and one input
/// vector it can return one value only.
pub open spec fn deterministic<K: Fn(&[Double], Double, ActivationFunction, &[Double]) -> Double>(
    kernel: &K,
) -> bool {
    forall|w: Seq<Double>, b: Double, a: ActivationFunction, x: Seq<Double>, first: Double, second: Double|
        #[trigger] evaluates(kernel, w, b, a, x, first) && #[trigger] evaluates(kernel, w, b, a, x, second)
            ==> first == second
}

/// `kernel` accepts every neuron whose weights are as many as its inputs.
pub open spec fn accepts_neurons<K: Fn(&[Double], Double, ActivationFunction, &[Double]) -> Double>(
    kernel: &K,
) -> bool {
    forall|w: &[Double], b: Double, a: ActivationFunction, x: &[Double]|
        w@.len() == x@.len() ==> #[trigger] call_requires(kernel, (w, b, a, x))
}

/// What a neuron can do.
pub trait NeuronTrait: Sized {
    /// The neuron's content.
    spec fn content(&self) -> NeuronView;

    /// A neuron with `input_len` weights and a bias, each one a value
    /// returned by `draw`, and an output of zero.
    fn new<D: Fn() -> Double>(
        input_len: usize,
        activation_function: ActivationFunction,
        draw: &D,
    ) -> (neuron: Self)
        requires
            call_requires(draw, ()),
        ensures
            neuron.content().weights.len() == input_len,
            forall|i: int|
                0 <= i < input_len ==> call_ensures(draw, (), #[trigger] neuron.content().weights[i]),
            call_ensures(draw, (), neuron.content().bias),
            neuron.content().output == (Double { bits: 0 }),
            neuron.content().activation_function == activation_function,
            neuron.content().position == (Single { bits: 0 }, Single { bits: 0 }),
    ;

    /// A copy of `neuron`.
    fn new_clone(neuron: &Neuron) -> (copy: Self)
        ensures
            copy.content() == neuron@,
    ;

    /// A neuron with the given weights, bias and activation, and an output
    /// of zero.
    fn new_seted(weights: Vec<Double>, bias: Double, activation_function: ActivationFunction) -> (neuron: Self)
        ensures
            neuron.content() == (NeuronView {
                weights: weights@,
                bias,
                output: Double { bits: 0 },
                activation_function,
                position: (Single { bits: 0 }, Single { bits: 0 }),
            }),
    ;

    /// Evaluates the neuron on `inputs` with `kernel` and records the result
    /// as its output. Nothing else changes.
    fn calculate_output<K: Fn(&[Double], Double, ActivationFunction, &[Double]) -> Double>(
        &mut self,
        inputs: &[Double],
        kernel: &K,
    )
        requires
            inputs@.len() == old(self).content().weights.len(),
            accepts_neurons(kernel),
        ensures
            final(self).content() == (NeuronView {
                output: final(self).content().output,
                ..old(self).content()
            }),
            evaluates(
                kernel,
                old(self).content().weights,
                old(self).content().bias,
                old(self).content().activation_function,
                inputs@,
                final(self).content().output,
            ),
    ;

    fn get_weights(&self) -> (weights: &[Double])
        ensures
            weights@ == self.content().weights,
    ;

    fn get_bias(&self) -> (bias: Double)
        ensures
            bias == self.content().bias,
    ;

    fn get_output(&self) -> (output: Double)
        ensures
            output == self.content().output,
    ;

    /// Replaces the weights by as many new ones.
    fn set_weights(&mut self, weights: Vec<Double>)
        requires
            weights@.len() == old(self).content().weights.len(),
        ensures
            final(self).content() == (NeuronView { weights: weights@, ..old(self).content() }),
    ;

    fn set_bias(&mut self, bias: Double)
        ensures
            final(self).content() == (NeuronView { bias, ..old(self).content() }),
    ;

    fn activation_function(&self) -> (activation_function: ActivationFunction)
        ensures
            activation_function == self.content().activation_function,
    ;
}

impl Clone for Neuron {
    fn clone(&self) -> (copy: Self)
        ensures
            copy@ == self@,
    {
        Neuron {
            weights: self.weights.clone(),
            bias: self.bias,
            output: self.output,
            activation_function: self.activation_function,
            position: self.position,
        }
    }
}

impl NeuronTrait for Neuron {
    open spec fn content(&self) -> NeuronView {
        self@
    }

    fn new<D: Fn() -> Double>(
        input_len: usize,
        activation_function: ActivationFunction,
        draw: &D,
    ) -> (neuron: Self) {
        let mut weights: Vec<Double> = Vec::new();
        let mut i: usize = 0;
        while i < input_len
            invariant
                i <= input_len,
                weights@.len() == i,
                call_requires(draw, ()),
                forall|k: int| 0 <= k < i ==> call_ensures(draw, (), #[trigger] weights@[k]),
            decreases input_len - i,
        {
            let w = draw();
            weights.push(w);
            i += 1;
        }
        let bias = draw();
        Neuron {
            weights,
            bias,
            output: Double::zero(),
            activation_function,
            position: (Single::zero(), Single::zero()),
        }
    }

    fn new_clone(neuron: &Neuron) -> (copy: Self) {
        neuron.clone()
    }

    fn new_seted(weights: Vec<Double>, bias: Double, activation_function: ActivationFunction) -> (neuron: Self) {
        Neuron {
            weights,
            bias,
            output: Double::zero(),
            activation_function,
            position: (Single::zero(), Single::zero()),
        }
    }

    fn calculate_output<K: Fn(&[Double], Double, ActivationFunction, &[Double]) -> Double>(
        &mut self,
        inputs: &[Double],
        kernel: &K,
    ) {
        let out = kernel(self.weights.as_slice(), self.bias, self.activation_function, inputs);
        self.output = out;
    }

    fn get_weights(&self) -> (weights: &[Double]) {
        self.weights.as_slice()
    }

    fn get_bias(&self) -> (bias: Double) {
        self.bias
    }

    fn get_output(&self) -> (output: Double) {
        self.output
    }

    fn set_weights(&mut self, weights: Vec<Double>) {
        self.weights = weights;
    }

    fn set_bias(&mut self, bias: Double) {
        self.bias = bias;
    }

    fn activation_function(&self) -> (activation_function: ActivationFunction) {
        self.activation_function
    }
}

impl Neuron {
    /// Replaces every weight, and then the bias, by what `update` returns
    /// for it.
    pub fn update_genes<F: Fn(Double) -> Double>(&mut self, update: &F)
        requires
            forall|g: Double| call_requires(update, (g,)),
        ensures
            final(self)@.same_frame(old(self)@),
            updated_genes(old(self)@.genes(), final(self)@.genes(), update),
    {
        let n = self.weights.len();
        let mut k: usize = 0;
        while k < n
            invariant
                k <= n,
                n == old(self).weights@.len(),
                self.weights@.len() == n,
                self.bias == old(self).bias,
                self.output == old(self).output,
                self.activation_function == old(self).activation_function,
                self.position == old(self).position,
                forall|g: Double| call_requires(update, (g,)),
                forall|g: int| 0 <= g < k ==> call_ensures(update, (old(self).weights@[g],), #[trigger] self.weights@[g]),
                forall|g: int| k <= g < n ==> #[trigger] self.weights@[g] == old(self).weights@[g],
            decreases n - k,
        {
            let w = update(self.weights[k]);
            self.weights[k] = w;
            k += 1;
        }
        self.bias = update(self.bias);
    }

    /// Adds `delta` to the weight at `index` with `plus`; an index past the
    /// last weight changes nothing.
    pub fn mutate_weight<A: Fn(Double, Double) -> Double>(&mut self, index: usize, delta: Double, plus: &A)
        requires
            forall|a: Double, b: Double| call_requires(plus, (a, b)),
        ensures
            index >= old(self)@.weights.len() ==> final(self)@ == old(self)@,
            index < old(self)@.weights.len() ==> {
                &&& final(self)@ == (NeuronView {
                    weights: old(self)@.weights.update(index as int, final(self)@.weights[index as int]),
                    ..old(self)@
                })
                &&& call_ensures(plus, (old(self)@.weights[index as int], delta), final(self)@.weights[index as int])
            },
    {
        if index < self.weights.len() {
            let sum = plus(self.weights[index], delta);
            self.weights[index] = sum;
        }
    }

    /// Adds `delta` to the bias with `plus`.
    pub fn mutate_bias<A: Fn(Double, Double) -> Double>(&mut self, delta: Double, plus: &A)
        requires
            forall|a: Double, b: Double| call_requires(plus, (a, b)),
        ensures
            final(self)@ == (NeuronView { bias: final(self)@.bias, ..old(self)@ }),
            call_ensures(plus, (old(self)@.bias, delta), final(self)@.bias),
    {
        self.bias = plus(self.bias, delta);
    }
}

} // verus!

use vstd::prelude::*;

verus! {

/// The number of neurons on one level of a network.
pub struct LayerTopology {
    pub neurons: usize,
}

/// One neuron: a bias and one weight per input.
pub struct Neuron<W> {
    bias: W,
    weights: Vec<W>,
}

/// A dense layer: its neurons, in order.
pub struct Layer<W> {
    neurons: Vec<Neuron<W>>,
}

/// A feed-forward network: its layers, from input to output.
pub struct Network<W> {
    layers: Vec<Layer<W>>,
}

/// How many parameters (biases and weights) a network of topology `t` holds:
/// each level after the first adds, per neuron, one bias and one weight per
/// neuron of the level before.
pub open spec fn weight_count(t: Seq<LayerTopology>) -> nat
    decreases t.len(),
{
    if t.len() < 2 {
        0
    } else {
        weight_count(t.drop_last()) + (t.last().neurons as nat) * (t[t.len() - 2].neurons as nat + 1)
    }
}

/// The parameters of a run of neurons, bias first, neuron after neuron.
pub open spec fn neurons_flat<W: Copy>(ns: Seq<Neuron<W>>) -> Seq<W>
    decreases ns.len(),
{
    if ns.len() == 0 {
        Seq::empty()
    } else {
        neurons_flat(ns.drop_last()) + ns.last().flat()
    }
}

/// The parameters of a run of layers, layer after layer.
pub open spec fn layers_flat<W: Copy>(ls: Seq<Layer<W>>) -> Seq<W>
    decreases ls.len(),
{
    if ls.len() == 0 {
        Seq::empty()
    } else {
        layers_flat(ls.drop_last()) + ls.last().flat()
    }
}

/// `out` holds one value per neuron of `l`: what `activation` gives for that
/// neuron and `inputs`.
pub open spec fn layer_outputs<W: Copy, F: Fn(&Neuron<W>, &Vec<W>) -> W>(
    l: Layer<W>,
    activation: F,
    inputs: Vec<W>,
    out: Seq<W>,
) -> bool {
    &&& out.len() == l.spec_neurons().len()
    &&& forall|j: int| 0 <= j < out.len() ==> activation.ensures((&#[trigger] l.spec_neurons()[j], &inputs), out[j])
}

impl<W: Copy> Neuron<W> {
    /// The bias, then the weights in input order.
    pub open spec fn flat(&self) -> Seq<W> {
        seq![self.spec_bias()] + self.spec_weights()
    }

    /// The number of inputs the neuron takes.
    pub open spec fn inputs(&self) -> nat {
        self.spec_weights().len()
    }

    pub closed spec fn spec_bias(&self) -> W {
        self.bias
    }

    pub closed spec fn spec_weights(&self) -> Seq<W> {
        self.weights@
    }

    pub fn new(bias: W, weights: Vec<W>) -> (r: Self)
        ensures
            r.spec_bias() == bias,
            r.spec_weights() == weights@,
    {
        Neuron { bias, weights }
    }

    pub fn bias(&self) -> (r: W)
        ensures
            r == self.spec_bias(),
    {
        self.bias
    }

    pub fn weights(&self) -> (r: &Vec<W>)
        ensures
            r@ == self.spec_weights(),
    {
        &self.weights
    }

    /// Reads a neuron of `input_size` inputs from `weights`, starting at
    /// `at`: the bias, then one weight per input.
    pub fn from_weights(input_size: usize, weights: &Vec<W>, at: usize) -> (r: Self)
        requires
            at + input_size + 1 <= weights@.len(),
        ensures
            r.inputs() == input_size,
            r.flat() == weights@.subrange(at as int, at + input_size + 1),
    {
        let bias = weights[at];
        let n = weights.len();
        let mut ws: Vec<W> = Vec::new();
        let mut i: usize = 0;
        while i < input_size
            invariant
                n == weights@.len(),
                i <= input_size,
                at + input_size + 1 <= weights@.len(),
                ws@ == weights@.subrange(at + 1, at + 1 + i),
            decreases input_size - i,
        {
            ws.push(weights[at + 1 + i]);
            i += 1;
            assert(ws@ =~= weights@.subrange(at + 1, at + 1 + i));
        }
        let r = Neuron { bias, weights: ws };
        assert(r.flat() =~= weights@.subrange(at as int, at + input_size + 1));
        r
    }

    /// Appends the neuron's parameters to `out`.
    pub fn append_weights(&self, out: &mut Vec<W>)
        ensures
            final(out)@ == old(out)@ + self.flat(),
    {
        out.push(self.bias);
        let mut i: usize = 0;
        while i < self.weights.len()
            invariant
                i <= self.weights@.len(),
                out@ == old(out)@ + seq![self.bias] + self.weights@.subrange(0, i as int),
            decreases self.weights@.len() - i,
        {
            out.push(self.weights[i]);
            i += 1;
            assert(out@ =~= old(out)@ + seq![self.bias] + self.weights@.subrange(0, i as int));
        }
        assert(out@ =~= old(out)@ + self.flat());
    }
}

impl<W: Copy> Layer<W> {
    /// The parameters of the neurons, neuron after neuron.
    pub open spec fn flat(&self) -> Seq<W> {
        neurons_flat(self.spec_neurons())
    }

    /// The neurons, in order.
    pub closed spec fn spec_neurons(&self) -> Seq<Neuron<W>> {
        self.neurons@
    }

    /// The layer has `outputs` neurons of `inputs` inputs each.
    pub open spec fn shaped(&self, inputs: nat, outputs: nat) -> bool {
        &&& self.spec_neurons().len() == outputs
        &&& forall|i: int| 0 <= i < outputs ==> #[trigger] self.spec_neurons()[i].inputs() == inputs
    }

    pub fn new(neurons: Vec<Neuron<W>>) -> (r: Self)
        ensures
            r.spec_neurons() == neurons@,
    {
        Layer { neurons }
    }

    pub fn neurons(&self) -> (r: &Vec<Neuron<W>>)
        ensures
            r@ == self.spec_neurons(),
    {
        &self.neurons
    }

    /// Reads a layer of `output_size` neurons of `input_size` inputs each
    /// from `weights`, starting at `at`.
    pub fn from_weights(input_size: usize, output_size: usize, weights: &Vec<W>, at: usize) -> (r: Self)
        requires
            at + output_size * (input_size + 1) <= weights@.len(),
        ensures
            r.shaped(input_size as nat, output_size as nat),
            r.flat() == weights@.subrange(at as int, at + output_size * (input_size + 1)),
    {
        let n = weights.len();
        let mut neurons: Vec<Neuron<W>> = Vec::new();
        let mut pos: usize = at;
        let mut j: usize = 0;
        while j < output_size
            invariant
                n == weights@.len(),
                j <= output_size,
                at + output_size * (input_size + 1) <= weights@.len(),
                pos == at + j * (input_size + 1),
                neurons@.len() == j,
                forall|i: int| 0 <= i < j ==> #[trigger] neurons@[i].inputs() == input_size,
                neurons_flat(neurons@) == weights@.subrange(at as int, pos as int),
            decreases output_size - j,
        {
            proof {
                assert((j + 1) * (input_size + 1) <= output_size * (input_size + 1)) by (nonlinear_arith)
                    requires j + 1 <= output_size;
                assert((j + 1) * (input_size + 1) == j * (input_size + 1) + input_size + 1) by (nonlinear_arith);
            }
            let n = Neuron::from_weights(input_size, weights, pos);
            let ghost before = neurons@;
            neurons.push(n);
            proof {
                assert(neurons@.drop_last() =~= before);
                assert(weights@.subrange(at as int, pos + input_size + 1) =~= weights@.subrange(at as int, pos as int)
                    + weights@.subrange(pos as int, pos + input_size + 1));
            }
            pos = pos + input_size + 1;
            j += 1;
        }
        Layer { neurons }
    }

    /// Feeds `inputs` to every neuron, in order; `activation` computes one
    /// neuron's output from the neuron and the inputs.
    pub fn propagate<F: Fn(&Neuron<W>, &Vec<W>) -> W>(&self, inputs: &Vec<W>, activation: &F) -> (r: Vec<W>)
        requires
            forall|i: int| 0 <= i < self.spec_neurons().len()
                ==> #[trigger] self.spec_neurons()[i].inputs() == inputs@.len(),
            forall|i: int| 0 <= i < self.spec_neurons().len()
                ==> activation.requires((&#[trigger] self.spec_neurons()[i], inputs)),
        ensures
            layer_outputs(*self, *activation, *inputs, r@),
    {
        let mut out: Vec<W> = Vec::new();
        let mut j: usize = 0;
        while j < self.neurons.len()
            invariant
                j <= self.neurons@.len(),
                out@.len() == j,
                forall|i: int| 0 <= i < self.spec_neurons().len()
                    ==> activation.requires((&#[trigger] self.spec_neurons()[i], inputs)),
                forall|i: int| 0 <= i < j
                    ==> activation.ensures((&#[trigger] self.spec_neurons()[i], inputs), out@[i]),
            decreases self.neurons@.len() - j,
        {
            let o = activation(&self.neurons[j], inputs);
            out.push(o);
            j += 1;
        }
        out
    }

    /// Appends the layer's parameters to `out`.
    pub fn append_weights(&self, out: &mut Vec<W>)
        ensures
            final(out)@ == old(out)@ + self.flat(),
    {
        let mut j: usize = 0;
        while j < self.neurons.len()
            invariant
                j <= self.neurons@.len(),
                out@ == old(out)@ + neurons_flat(self.neurons@.subrange(0, j as int)),
            decreases self.neurons@.len() - j,
        {
            let ghost mid = out@;
            self.neurons[j].append_weights(out);
            proof {
                assert(self.neurons@.subrange(0, j + 1).drop_last() =~= self.neurons@.subrange(0, j as int));
            }
            j += 1;
        }
        assert(self.neurons@.subrange(0, j as int) =~= self.neurons@);
    }
}

impl<W: Copy> Network<W> {
    /// All parameters of the network: layer after layer, neuron after
    /// neuron, each bias before its weights.
    pub open spec fn flat(&self) -> Seq<W> {
        layers_flat(self.spec_layers())
    }

    /// The layers, in order.
    pub closed spec fn spec_layers(&self) -> Seq<Layer<W>> {
        self.layers@
    }

    /// The network has the shape that topology `t` describes: one layer per
    /// pair of adjacent levels.
    pub open spec fn shaped(&self, t: Seq<LayerTopology>) -> bool {
        &&& t.len() >= 2
        &&& self.spec_layers().len() == t.len() - 1
        &&& forall|i: int| 0 <= i < t.len() - 1
            ==> (#[trigger] self.spec_layers()[i]).shaped(t[i].neurons as nat, t[i + 1].neurons as nat)
    }

    pub fn new(layers: Vec<Layer<W>>) -> (r: Self)
        ensures
            r.spec_layers() == layers@,
    {
        Network { layers }
    }

    pub fn layers(&self) -> (r: &Vec<Layer<W>>)
        ensures
            r@ == self.spec_layers(),
    {
        &self.layers
    }

    /// Each layer takes the outputs of the one before: the first takes
    /// `input_len` inputs.
    pub open spec fn chained(&self, input_len: nat) -> bool {
        &&& self.spec_layers().len() >= 1
        &&& self.spec_layers()[0].shaped(input_len, self.spec_layers()[0].spec_neurons().len())
        &&& forall|i: int| 0 < i < self.spec_layers().len()
            ==> #[trigger] self.spec_layers()[i].shaped(
                self.spec_layers()[i - 1].spec_neurons().len(),
                self.spec_layers()[i].spec_neurons().len(),
            )
    }

    /// Feeds `inputs` through the layers in order; `activation` computes one
    /// neuron's output from the neuron and the outputs of the level before.
    /// There are values `outs[0] = inputs, outs[1], ..., outs[n] = r`, one
    /// more than layers, where layer `i` turns `outs[i]` into `outs[i + 1]`.
    pub fn propagate<F: Fn(&Neuron<W>, &Vec<W>) -> W>(&self, inputs: Vec<W>, activation: &F) -> (r: Vec<W>)
        requires
            self.chained(inputs@.len()),
            forall|n: &Neuron<W>, xs: &Vec<W>| #[trigger] activation.requires((n, xs)),
        ensures
            r@.len() == self.spec_layers().last().spec_neurons().len(),
            exists|outs: Seq<Vec<W>>| #[trigger] outs.len() == self.spec_layers().len() + 1
                && outs[0] == inputs
                && outs.last() == r
                && forall|i: int| 0 <= i < self.spec_layers().len()
                    ==> layer_outputs(#[trigger] self.spec_layers()[i], *activation, outs[i], outs[i + 1]@),
    {
        let mut current = inputs;
        let ghost outs: Seq<Vec<W>> = seq![inputs];
        let mut li: usize = 0;
        while li < self.layers.len()
            invariant
                self.chained(inputs@.len()),
                forall|n: &Neuron<W>, xs: &Vec<W>| #[trigger] activation.requires((n, xs)),
                li <= self.layers@.len(),
                li == 0 ==> current@.len() == inputs@.len(),
                li > 0 ==> current@.len() == self.layers@[li - 1].spec_neurons().len(),
                outs.len() == li + 1,
                outs[0] == inputs,
                outs.last() == current,
                forall|i: int| 0 <= i < li
                    ==> layer_outputs(#[trigger] self.spec_layers()[i], *activation, outs[i], outs[i + 1]@),
            decreases self.layers@.len() - li,
        {
            let layer = &self.layers[li];
            proof {
                if li > 0 {
                    assert(self.spec_layers()[li as int].shaped(
                        self.spec_layers()[li - 1].spec_neurons().len(),
                        self.spec_layers()[li as int].spec_neurons().len(),
                    ));
                }
            }
            let next = layer.propagate(&current, activation);
            proof {
                let prev = outs;
                outs = outs.push(next);
                assert forall|i: int| 0 <= i < li + 1
                    implies layer_outputs(#[trigger] self.spec_layers()[i], *activation, outs[i], outs[i + 1]@) by {
                    if i < li {
                        assert(outs[i] == prev[i] && outs[i + 1] == prev[i + 1]);
                    }
                }
            }
            current = next;
            li += 1;
        }
        assert(outs.len() == self.spec_layers().len() + 1);
        current
    }

    /// Builds the network of topology `layers` whose parameters, in the
    /// order of `flat`, are `weights`.
    pub fn from_weights(layers: &[LayerTopology], weights: Vec<W>) -> (r: Self)
        requires
            layers@.len() >= 2,
            weights@.len() == weight_count(layers@),
        ensures
            r.shaped(layers@),
            r.chained(layers@[0].neurons as nat),
            r.flat() == weights@,
    {
        let ghost t = layers@;
        let mut built: Vec<Layer<W>> = Vec::new();
        let mut pos: usize = 0;
        let mut li: usize = 0;
        let n = weights.len();
        let nl = layers.len();
        proof {
            assert(t.subrange(0, 1).len() < 2);
            lemma_weight_count_prefix(t, 1);
        }
        while li + 1 < nl
            invariant
                t == layers@,
                nl == t.len(),
                n == weights@.len(),
                t.len() >= 2,
                li + 1 <= t.len(),
                weights@.len() == weight_count(t),
                pos == weight_count(t.subrange(0, li + 1)),
                built@.len() == li,
                forall|i: int| 0 <= i < li
                    ==> #[trigger] built@[i].shaped(t[i].neurons as nat, t[i + 1].neurons as nat),
                layers_flat(built@) == weights@.subrange(0, pos as int),
            decreases t.len() - li,
        {
            let input_size = layers[li].neurons;
            let output_size = layers[li + 1].neurons;
            proof {
                let s = t.subrange(0, li + 2);
                assert(s.drop_last() =~= t.subrange(0, li + 1));
                assert(s.last() == t[li + 1] && s[s.len() - 2] == t[li as int]);
                assert(weight_count(s) == pos + output_size * (input_size + 1));
                lemma_weight_count_prefix(t, li + 2);
            }
            let layer = Layer::from_weights(input_size, output_size, &weights, pos);
            let ghost before = built@;
            built.push(layer);
            proof {
                assert(built@.drop_last() =~= before);
                assert(weights@.subrange(0, pos + output_size * (input_size + 1)) =~= weights@.subrange(0, pos as int)
                    + weights@.subrange(pos as int, pos + output_size * (input_size + 1)));
            }
            if output_size > 0 {
                proof {
                    assert(input_size + 1 <= output_size * (input_size + 1)) by (nonlinear_arith)
                        requires output_size >= 1;
                }
                pos = pos + output_size * (input_size + 1);
            }
            li += 1;
        }
        proof {
            assert(t.subrange(0, li + 1) =~= t);
            assert(weights@.subrange(0, pos as int) =~= weights@);
        }
        let r = Network { layers: built };
        proof {
            lemma_shaped_is_chained(r, t);
        }
        r
    }

    /// All parameters of the network, in the order of `flat`.
    pub fn weights(&self) -> (r: Vec<W>)
        ensures
            r@ == self.flat(),
    {
        let mut out: Vec<W> = Vec::new();
        let mut li: usize = 0;
        while li < self.layers.len()
            invariant
                li <= self.layers@.len(),
                out@ == layers_flat(self.layers@.subrange(0, li as int)),
            decreases self.layers@.len() - li,
        {
            self.layers[li].append_weights(&mut out);
            proof {
                assert(self.layers@.subrange(0, li + 1).drop_last() =~= self.layers@.subrange(0, li as int));
            }
            li += 1;
        }
        assert(self.layers@.subrange(0, li as int) =~= self.layers@);
        out
    }
}

/// A network shaped by a topology can be fed inputs of the first level's
/// size: each layer takes what the one before gives.
pub proof fn lemma_shaped_is_chained<W: Copy>(n: Network<W>, t: Seq<LayerTopology>)
    requires
        n.shaped(t),
    ensures
        n.chained(t[0].neurons as nat),
{
    assert(n.spec_layers()[0].shaped(t[0].neurons as nat, t[1].neurons as nat));
    assert forall|i: int| 0 < i < n.spec_layers().len() implies #[trigger] n.spec_layers()[i].shaped(
        n.spec_layers()[i - 1].spec_neurons().len(),
        n.spec_layers()[i].spec_neurons().len(),
    ) by {
        assert(n.spec_layers()[i - 1].shaped(t[i - 1].neurons as nat, t[i].neurons as nat));
        assert(n.spec_layers()[i].shaped(t[i].neurons as nat, t[i + 1].neurons as nat));
    }
}

/// Two networks hold the same parameters at the same places: layer for
/// layer, neuron for neuron, the same bias and the same weights.
pub open spec fn same_parameters<W: Copy>(a: Network<W>, b: Network<W>) -> bool {
    &&& a.spec_layers().len() == b.spec_layers().len()
    &&& forall|i: int| 0 <= i < a.spec_layers().len() ==> {
        let la = #[trigger] a.spec_layers()[i];
        let lb = b.spec_layers()[i];
        &&& la.spec_neurons().len() == lb.spec_neurons().len()
        &&& forall|j: int| 0 <= j < la.spec_neurons().len() ==> {
            &&& (#[trigger] la.spec_neurons()[j]).spec_bias() == lb.spec_neurons()[j].spec_bias()
            &&& la.spec_neurons()[j].spec_weights() == lb.spec_neurons()[j].spec_weights()
        }
    }
}

/// Equal sequences split at the same place give equal parts.
proof fn lemma_split_equal<W>(a1: Seq<W>, b1: Seq<W>, a2: Seq<W>, b2: Seq<W>)
    requires
        a1 + b1 == a2 + b2,
        a1.len() == a2.len(),
    ensures
        a1 == a2,
        b1 == b2,
{
    assert(a1 =~= (a1 + b1).subrange(0, a1.len() as int));
    assert(a2 =~= (a2 + b2).subrange(0, a2.len() as int));
    assert(b1 =~= (a1 + b1).subrange(a1.len() as int, (a1 + b1).len() as int));
    assert(b2 =~= (a2 + b2).subrange(a2.len() as int, (a2 + b2).len() as int));
}

proof fn lemma_neurons_flat_len<W: Copy>(ns: Seq<Neuron<W>>, k: nat)
    requires
        forall|j: int| 0 <= j < ns.len() ==> #[trigger] ns[j].inputs() == k,
    ensures
        neurons_flat(ns).len() == ns.len() * (k + 1),
    decreases ns.len(),
{
    if ns.len() > 0 {
        let t = ns.drop_last();
        assert forall|j: int| 0 <= j < t.len() implies #[trigger] t[j].inputs() == k by {
            assert(t[j] == ns[j]);
        }
        lemma_neurons_flat_len(t, k);
        assert(ns.last().inputs() == k);
        assert(ns.len() * (k + 1) == t.len() * (k + 1) + (k + 1)) by (nonlinear_arith)
            requires ns.len() == t.len() + 1;
    }
}

proof fn lemma_neurons_flat_injective<W: Copy>(a: Seq<Neuron<W>>, b: Seq<Neuron<W>>, k: nat)
    requires
        a.len() == b.len(),
        forall|j: int| 0 <= j < a.len() ==> #[trigger] a[j].inputs() == k,
        forall|j: int| 0 <= j < b.len() ==> #[trigger] b[j].inputs() == k,
        neurons_flat(a) == neurons_flat(b),
    ensures
        forall|j: int| 0 <= j < a.len() ==> {
            &&& (#[trigger] a[j]).spec_bias() == b[j].spec_bias()
            &&& a[j].spec_weights() == b[j].spec_weights()
        },
    decreases a.len(),
{
    if a.len() > 0 {
        let ta = a.drop_last();
        let tb = b.drop_last();
        assert forall|j: int| 0 <= j < ta.len() implies #[trigger] ta[j].inputs() == k by {
            assert(ta[j] == a[j]);
        }
        assert forall|j: int| 0 <= j < tb.len() implies #[trigger] tb[j].inputs() == k by {
            assert(tb[j] == b[j]);
        }
        lemma_neurons_flat_len(ta, k);
        lemma_neurons_flat_len(tb, k);
        lemma_split_equal(neurons_flat(ta), a.last().flat(), neurons_flat(tb), b.last().flat());
        lemma_neurons_flat_injective(ta, tb, k);
        let fa = a.last().flat();
        assert(a.last().spec_bias() == fa[0]);
        assert(b.last().spec_bias() == b.last().flat()[0]);
        assert(a.last().spec_weights() =~= fa.subrange(1, fa.len() as int));
        assert(b.last().spec_weights() =~= b.last().flat().subrange(1, fa.len() as int));
        assert forall|j: int| 0 <= j < a.len() implies {
            &&& (#[trigger] a[j]).spec_bias() == b[j].spec_bias()
            &&& a[j].spec_weights() == b[j].spec_weights()
        } by {
            if j < ta.len() {
                assert(ta[j] == a[j] && tb[j] == b[j]);
            }
        }
    }
}

proof fn lemma_layers_flat_injective<W: Copy>(a: Seq<Layer<W>>, b: Seq<Layer<W>>, t: Seq<LayerTopology>)
    requires
        a.len() == b.len(),
        a.len() < t.len(),
        forall|i: int| 0 <= i < a.len()
            ==> (#[trigger] a[i]).shaped(t[i].neurons as nat, t[i + 1].neurons as nat),
        forall|i: int| 0 <= i < b.len()
            ==> (#[trigger] b[i]).shaped(t[i].neurons as nat, t[i + 1].neurons as nat),
        layers_flat(a) == layers_flat(b),
    ensures
        forall|i: int| 0 <= i < a.len() ==> {
            let la = #[trigger] a[i];
            let lb = b[i];
            &&& la.spec_neurons().len() == lb.spec_neurons().len()
            &&& forall|j: int| 0 <= j < la.spec_neurons().len() ==> {
                &&& (#[trigger] la.spec_neurons()[j]).spec_bias() == lb.spec_neurons()[j].spec_bias()
                &&& la.spec_neurons()[j].spec_weights() == lb.spec_neurons()[j].spec_weights()
            }
        },
    decreases a.len(),
{
    if a.len() > 0 {
        let n = (a.len() - 1) as int;
        let ta = a.drop_last();
        let tb = b.drop_last();
        assert forall|i: int| 0 <= i < ta.len()
            implies (#[trigger] ta[i]).shaped(t[i].neurons as nat, t[i + 1].neurons as nat) by {
            assert(ta[i] == a[i]);
        }
        assert forall|i: int| 0 <= i < tb.len()
            implies (#[trigger] tb[i]).shaped(t[i].neurons as nat, t[i + 1].neurons as nat) by {
            assert(tb[i] == b[i]);
        }
        lemma_layers_flat_len(ta, t);
        lemma_layers_flat_len(tb, t);
        lemma_split_equal(layers_flat(ta), a.last().flat(), layers_flat(tb), b.last().flat());
        lemma_layers_flat_injective(ta, tb, t);
        let la = a[n];
        let lb = b[n];
        assert(la.shaped(t[n].neurons as nat, t[n + 1].neurons as nat));
        assert(lb.shaped(t[n].neurons as nat, t[n + 1].neurons as nat));
        lemma_neurons_flat_injective(la.spec_neurons(), lb.spec_neurons(), t[n].neurons as nat);
        assert forall|i: int| 0 <= i < a.len() implies {
            let la = #[trigger] a[i];
            let lb = b[i];
            &&& la.spec_neurons().len() == lb.spec_neurons().len()
            &&& forall|j: int| 0 <= j < la.spec_neurons().len() ==> {
                &&& (#[trigger] la.spec_neurons()[j]).spec_bias() == lb.spec_neurons()[j].spec_bias()
                &&& la.spec_neurons()[j].spec_weights() == lb.spec_neurons()[j].spec_weights()
            }
        } by {
            if i < ta.len() {
                assert(ta[i] == a[i] && tb[i] == b[i]);
            }
        }
    }
}

proof fn lemma_layers_flat_len<W: Copy>(a: Seq<Layer<W>>, t: Seq<LayerTopology>)
    requires
        a.len() < t.len(),
        forall|i: int| 0 <= i < a.len()
            ==> (#[trigger] a[i]).shaped(t[i].neurons as nat, t[i + 1].neurons as nat),
    ensures
        layers_flat(a).len() == weight_count(t.subrange(0, a.len() as int + 1)),
    decreases a.len(),
{
    let s = t.subrange(0, a.len() as int + 1);
    if a.len() == 0 {
        assert(s.len() < 2);
    } else {
        let n = (a.len() - 1) as int;
        let ta = a.drop_last();
        assert forall|i: int| 0 <= i < ta.len()
            implies (#[trigger] ta[i]).shaped(t[i].neurons as nat, t[i + 1].neurons as nat) by {
            assert(ta[i] == a[i]);
        }
        lemma_layers_flat_len(ta, t);
        assert(s.drop_last() =~= t.subrange(0, ta.len() as int + 1));
        assert(a[n].shaped(t[n].neurons as nat, t[n + 1].neurons as nat));
        lemma_neurons_flat_len(a[n].spec_neurons(), t[n].neurons as nat);
        assert(s.last() == t[n + 1] && s[s.len() - 2] == t[n]);
        assert((t[n + 1].neurons as nat) * (t[n].neurons as nat + 1)
            == a[n].spec_neurons().len() * (t[n].neurons as nat + 1));
    }
}

/// A network shaped by `t` holds `weight_count(t)` parameters.
pub proof fn lemma_shaped_weight_count<W: Copy>(n: Network<W>, t: Seq<LayerTopology>)
    requires
        n.shaped(t),
    ensures
        n.flat().len() == weight_count(t),
{
    lemma_layers_flat_len(n.spec_layers(), t);
    assert(t.subrange(0, t.len() as int) =~= t);
}

/// A network is fixed by its topology and its flat parameters: two networks
/// shaped by `t` with the same `flat` hold the same parameters at the same
/// places. So rebuilding a network from its own weights gives it back, as
/// building one from weights and reading them back gives the weights.
pub proof fn lemma_flat_determines_network<W: Copy>(a: Network<W>, b: Network<W>, t: Seq<LayerTopology>)
    requires
        a.shaped(t),
        b.shaped(t),
        a.flat() == b.flat(),
    ensures
        same_parameters(a, b),
{
    lemma_layers_flat_injective(a.spec_layers(), b.spec_layers(), t);
}

/// The parameter count of a prefix of a topology never exceeds that of the
/// whole.
proof fn lemma_weight_count_prefix(t: Seq<LayerTopology>, k: int)
    requires
        0 <= k <= t.len(),
    ensures
        weight_count(t.subrange(0, k)) <= weight_count(t),
    decreases t.len(),
{
    if k < t.len() {
        assert(t.subrange(0, k) =~= t.drop_last().subrange(0, k));
        lemma_weight_count_prefix(t.drop_last(), k);
    } else {
        assert(t.subrange(0, k) =~= t);
    }
}

} // verus!

//! The feedforward network representation: neurons grouped into layers,
//! layers chained into a network whose shape a topology fully determines.
//!
//! Scalars are the bit patterns of single-precision numbers (see the crate
//! root). The shape of every structure, and the exact placement of every
//! scalar, is what this module pins down; the real-number evaluation of a
//! network is the embedder's concern.

use vstd::prelude::*;
use crate::{CoreError, LayerTopology};
use crate::genome::{
    Genome, expected_len, genome_length, layer_from_genes, layer_gene_count, layer_genes,
    lemma_network_from_genes_in_range, lemma_network_from_genes_wf, network_from_genes,
    network_genes, neuron_from_genes, neuron_genes, stride,
};
use crate::rng::{RandomSource, is_weight_bits};

verus! {

/// The mathematical image of a neuron: a bias and the weights, one per
/// input.
#[verifier::ext_equal]
pub struct NeuronModel {
    pub bias: u32,
    pub weights: Seq<u32>,
}

/// The per-layer neuron counts as a sequence of widths.
pub open spec fn widths(t: Seq<LayerTopology>) -> Seq<usize> {
    t.map_values(|lt: LayerTopology| lt.neurons)
}

/// A neuron is well formed for a layer when it holds one weight per input.
pub open spec fn neuron_wf(n: NeuronModel, input: nat) -> bool {
    n.weights.len() == input
}

/// A layer is well formed when it holds `output` neurons, each with one
/// weight per input.
pub open spec fn layer_wf(l: Seq<NeuronModel>, input: nat, output: nat) -> bool {
    &&& l.len() == output
    &&& forall|j: int| 0 <= j < l.len() ==> neuron_wf(#[trigger] l[j], input)
}

/// A network is well formed for a width sequence when it holds one layer per
/// adjacent pair of widths, each layer reading the earlier width and
/// producing the later one.
pub open spec fn network_wf(net: Seq<Seq<NeuronModel>>, w: Seq<usize>) -> bool {
    &&& net.len() + 1 == w.len()
    &&& forall|l: int| 0 <= l < net.len() ==> layer_wf(#[trigger] net[l], w[l] as nat, w[l + 1] as nat)
}

/// Every scalar of the neuron, the bias and each weight, lies in the
/// closed interval from minus one to one. Freshly drawn neurons satisfy
/// this; mutated genomes may leave it, by design.
pub open spec fn neuron_in_range(n: NeuronModel) -> bool {
    &&& is_weight_bits(n.bias)
    &&& forall|k: int| 0 <= k < n.weights.len() ==> is_weight_bits(#[trigger] n.weights[k])
}

/// Every neuron of the layer is in range.
pub open spec fn layer_in_range(l: Seq<NeuronModel>) -> bool {
    forall|j: int| 0 <= j < l.len() ==> neuron_in_range(#[trigger] l[j])
}

/// Every scalar of the network is in range.
pub open spec fn network_in_range(net: Seq<Seq<NeuronModel>>) -> bool {
    forall|l: int| 0 <= l < net.len() ==> layer_in_range(#[trigger] net[l])
}

/// A bias and one weight per input; computes one scalar from an input
/// vector, a computation the embedder performs in single precision.
#[derive(Debug)]
pub struct Neuron {
    bias: u32,
    weights: Vec<u32>,
}

impl View for Neuron {
    type V = NeuronModel;

    closed spec fn view(&self) -> NeuronModel {
        NeuronModel { bias: self.bias, weights: self.weights@ }
    }
}

impl Neuron {
    /// A neuron from its parts.
    pub fn new(bias: u32, weights: Vec<u32>) -> (r: Neuron)
        ensures
            r@ == (NeuronModel { bias, weights: weights@ }),
    {
        Neuron { bias, weights }
    }

    /// The bias as a bit pattern.
    pub fn bias(&self) -> (r: u32)
        ensures
            r == self@.bias,
    {
        self.bias
    }

    /// The weights as bit patterns, one per input.
    pub fn weights(&self) -> (r: &Vec<u32>)
        ensures
            r@ == self@.weights,
    {
        &self.weights
    }

    /// A neuron drawn from the source: first the bias, then one weight per
    /// input, each uniform over the closed interval from minus one to one,
    /// so every scalar of the result lies in that interval.
    pub fn random<R: RandomSource>(rng: &mut R, input_size: usize) -> (r: Neuron)
        ensures
            neuron_wf(r@, input_size as nat),
            neuron_in_range(r@),
    {
        let bias = rng.next_weight();
        let mut weights: Vec<u32> = Vec::new();
        while weights.len() < input_size
            invariant
                weights@.len() <= input_size,
                forall|k: int| 0 <= k < weights@.len() ==> is_weight_bits(#[trigger] weights@[k]),
            decreases input_size - weights@.len(),
        {
            weights.push(rng.next_weight());
        }
        Neuron { bias, weights }
    }
}

/// An ordered collection of neurons sharing one input width; maps an input
/// vector to one output per neuron.
#[derive(Debug)]
pub struct Layer {
    neurons: Vec<Neuron>,
}

impl View for Layer {
    type V = Seq<NeuronModel>;

    closed spec fn view(&self) -> Seq<NeuronModel> {
        self.neurons@.map_values(|n: Neuron| n@)
    }
}

impl Layer {
    /// A layer from its neurons.
    pub fn new(neurons: Vec<Neuron>) -> (r: Layer)
        ensures
            r@ == neurons@.map_values(|n: Neuron| n@),
    {
        Layer { neurons }
    }

    /// The neurons in order.
    pub fn neurons(&self) -> (r: &Vec<Neuron>)
        ensures
            r@.map_values(|n: Neuron| n@) == self@,
    {
        &self.neurons
    }

    /// A layer of `output_size` neurons drawn from the source in order, each
    /// as [`Neuron::random`]; the order matters for reproducibility, and
    /// every scalar of the result is in range.
    pub fn random<R: RandomSource>(rng: &mut R, input_size: usize, output_size: usize) -> (r: Layer)
        ensures
            layer_wf(r@, input_size as nat, output_size as nat),
            layer_in_range(r@),
    {
        let mut neurons: Vec<Neuron> = Vec::new();
        while neurons.len() < output_size
            invariant
                neurons@.len() <= output_size,
                forall|j: int| 0 <= j < neurons@.len()
                    ==> neuron_wf(#[trigger] neurons@[j]@, input_size as nat),
                forall|j: int| 0 <= j < neurons@.len()
                    ==> neuron_in_range(#[trigger] neurons@[j]@),
            decreases output_size - neurons@.len(),
        {
            neurons.push(Neuron::random(rng, input_size));
        }
        let r = Layer { neurons };
        proof {
            assert(forall|j: int| 0 <= j < r@.len() ==> #[trigger] r@[j] == neurons@[j]@);
        }
        r
    }
}

/// The neuron written at `start`: the bias, then `input` weights.
fn decode_neuron(g: &Vec<u32>, start: usize, input: usize) -> (r: Neuron)
    requires
        start + 1 + input <= g@.len(),
    ensures
        r@ == neuron_from_genes(input as nat, g@.skip(start as int)),
{
    // The exec length call teaches the prover that the gene vector's
    // length fits the machine word, which the index arithmetic needs.
    let _glen = g.len();
    let bias = g[start];
    let mut weights: Vec<u32> = Vec::new();
    let mut k: usize = 0;
    while k < input
        invariant
            k <= input,
            start + 1 + input <= g@.len(),
            g@.len() <= usize::MAX,
            weights@ == g@.subrange(start as int + 1, start as int + 1 + k),
        decreases input - k,
    {
        weights.push(g[start + 1 + k]);
        k = k + 1;
        proof {
            assert(weights@ =~= g@.subrange(start as int + 1, start as int + 1 + k));
        }
    }
    let r = Neuron { bias, weights };
    proof {
        let gs = g@.skip(start as int);
        assert(gs.subrange(1, stride(input as nat) as int)
            =~= g@.subrange(start as int + 1, start as int + 1 + input));
        assert(r@ =~= neuron_from_genes(input as nat, gs));
    }
    r
}

/// The `output` neurons of one layer, written from `start` on.
fn decode_layer_neurons(g: &Vec<u32>, start: usize, input: usize, output: usize) -> (r: Vec<
    Neuron,
>)
    requires
        start + layer_gene_count(input as nat, output as nat) <= g@.len(),
    ensures
        r@.map_values(|n: Neuron| n@) == layer_from_genes(
            input as nat,
            output as nat,
            g@.skip(start as int),
        ),
    decreases output,
{
    // Learn that the gene vector's length fits the machine word, for the
    // cursor arithmetic below.
    let _glen = g.len();
    if output == 0 {
        let r: Vec<Neuron> = Vec::new();
        proof {
            assert(r@.map_values(|n: Neuron| n@)
                =~= layer_from_genes(input as nat, 0, g@.skip(start as int)));
        }
        r
    } else {
        proof {
            let s = stride(input as nat) as int;
            assert((output as int) * s == s + (output - 1) * s) by (nonlinear_arith)
                requires
                    output >= 1,
            ;
        }
        let head = decode_neuron(g, start, input);
        let mut rest = decode_layer_neurons(g, start + input + 1, input, output - 1);
        rest.insert(0, head);
        proof {
            let f = |n: Neuron| n@;
            let gs = g@.skip(start as int);
            let s = stride(input as nat) as int;
            assert(gs.skip(s) =~= g@.skip(start as int + s));
            let tail = layer_from_genes(input as nat, (output - 1) as nat, gs.skip(s));
            assert(rest@.map_values(f) =~= seq![head@] + tail) by {
                assert(forall|j: int| 1 <= j < rest@.len() ==> rest@[j] == rest@.skip(1)[j - 1]);
            }
            assert(layer_from_genes(input as nat, output as nat, gs)
                =~= seq![neuron_from_genes(input as nat, gs)] + tail);
        }
        rest
    }
}

/// The layers of the topology from pair `l` onward, written from `start`
/// on.
fn decode_layers(g: &Vec<u32>, topology: &Vec<LayerTopology>, l: usize, start: usize) -> (r: Vec<
    Layer,
>)
    requires
        l <= topology@.len(),
        start <= g@.len(),
        g@.len() - start == expected_len(widths(topology@).skip(l as int)),
    ensures
        r@.map_values(|lay: Layer| lay@) == network_from_genes(
            widths(topology@).skip(l as int),
            g@.skip(start as int),
        ),
    decreases topology@.len() - l,
{
    let ghost w = widths(topology@).skip(l as int);
    // Learn that the gene vector's length fits the machine word, for the
    // cursor arithmetic below.
    let _glen = g.len();
    if topology.len() - l < 2 {
        let r: Vec<Layer> = Vec::new();
        proof {
            assert(r@.map_values(|lay: Layer| lay@) =~= network_from_genes(w, g@.skip(start as int)));
        }
        r
    } else {
        let input = topology[l].neurons;
        let output = topology[l + 1].neurons;
        let ghost chunk = layer_gene_count(input as nat, output as nat);
        proof {
            assert(w[0] == widths(topology@)[l as int]);
            assert(w[1] == widths(topology@)[l as int + 1]);
            assert(w.drop_first() =~= widths(topology@).skip(l as int + 1));
            assert(expected_len(w) == chunk + expected_len(w.drop_first()));
        }
        let neurons = decode_layer_neurons(g, start, input, output);
        let first = Layer { neurons };
        let next_start: usize = if output == 0 {
            proof {
                let s = stride(input as nat) as int;
                assert(0int * s == 0) by (nonlinear_arith);
            }
            start
        } else {
            proof {
                let s = stride(input as nat) as int;
                assert(s <= (output as int) * s) by (nonlinear_arith)
                    requires
                        output >= 1,
                        s >= 0,
                ;
            }
            let s = input + 1;
            start + output * s
        };
        proof {
            assert(next_start == start + chunk);
        }
        let mut rest = decode_layers(g, topology, l + 1, next_start);
        rest.insert(0, first);
        proof {
            let f = |lay: Layer| lay@;
            let gs = g@.skip(start as int);
            assert(gs.skip(chunk as int) =~= g@.skip(next_start as int));
            let tail = network_from_genes(w.drop_first(), gs.skip(chunk as int));
            assert(rest@.map_values(f) =~= seq![first@] + tail) by {
                assert(forall|j: int| 1 <= j < rest@.len() ==> rest@[j] == rest@.skip(1)[j - 1]);
            }
            assert(network_from_genes(w, gs)
                =~= seq![layer_from_genes(input as nat, output as nat, gs)] + tail);
        }
        rest
    }
}

/// One neuron flattened: the bias, then the weights left to right.
fn encode_neuron(n: &Neuron) -> (r: Vec<u32>)
    ensures
        r@ == neuron_genes(n@),
{
    let mut r: Vec<u32> = Vec::new();
    r.push(n.bias);
    let mut k: usize = 0;
    while k < n.weights.len()
        invariant
            k <= n.weights@.len(),
            r@ == (seq![n@.bias] + n@.weights).take(1 + k),
        decreases n.weights@.len() - k,
    {
        r.push(n.weights[k]);
        k = k + 1;
        proof {
            assert(r@ =~= (seq![n@.bias] + n@.weights).take(1 + k));
        }
    }
    proof {
        assert(r@ =~= neuron_genes(n@));
    }
    r
}

/// One layer flattened from neuron `j` onward.
fn encode_layer_from(neurons: &Vec<Neuron>, j: usize) -> (r: Vec<u32>)
    requires
        j <= neurons@.len(),
    ensures
        r@ == layer_genes(neurons@.map_values(|n: Neuron| n@).skip(j as int)),
    decreases neurons@.len() - j,
{
    let ghost l = neurons@.map_values(|n: Neuron| n@).skip(j as int);
    if j == neurons.len() {
        let r: Vec<u32> = Vec::new();
        proof {
            assert(l =~= Seq::<NeuronModel>::empty());
        }
        r
    } else {
        let mut head = encode_neuron(&neurons[j]);
        let mut rest = encode_layer_from(neurons, j + 1);
        head.append(&mut rest);
        proof {
            assert(l[0] == neurons@[j as int]@);
            assert(l.drop_first() =~= neurons@.map_values(|n: Neuron| n@).skip(j as int + 1));
            assert(head@ =~= neuron_genes(l[0]) + layer_genes(l.drop_first()));
        }
        head
    }
}

/// A network flattened from layer `l` onward.
fn encode_layers_from(layers: &Vec<Layer>, l: usize) -> (r: Vec<u32>)
    requires
        l <= layers@.len(),
    ensures
        r@ == network_genes(layers@.map_values(|lay: Layer| lay@).skip(l as int)),
    decreases layers@.len() - l,
{
    let ghost net = layers@.map_values(|lay: Layer| lay@).skip(l as int);
    if l == layers.len() {
        let r: Vec<u32> = Vec::new();
        proof {
            assert(net =~= Seq::<Seq<NeuronModel>>::empty());
        }
        r
    } else {
        let mut head = encode_layer_from(&layers[l].neurons, 0);
        let mut rest = encode_layers_from(layers, l + 1);
        head.append(&mut rest);
        proof {
            assert(layers@[l as int].neurons@.map_values(|n: Neuron| n@).skip(0)
                =~= layers@[l as int]@);
            assert(net[0] == layers@[l as int]@);
            assert(net.drop_first() =~= layers@.map_values(|lay: Layer| lay@).skip(l as int + 1));
            assert(head@ =~= layer_genes(net[0]) + network_genes(net.drop_first()));
        }
        head
    }
}

/// An ordered sequence of layers, each feeding the next: layer `i`'s output
/// width is layer `i + 1`'s input width. A topology of widths fully
/// determines the shape.
#[derive(Debug)]
pub struct Network {
    layers: Vec<Layer>,
}

impl View for Network {
    type V = Seq<Seq<NeuronModel>>;

    closed spec fn view(&self) -> Seq<Seq<NeuronModel>> {
        self.layers@.map_values(|l: Layer| l@)
    }
}

impl Network {
    /// The layers in order.
    pub fn layers(&self) -> (r: &Vec<Layer>)
        ensures
            r@.map_values(|l: Layer| l@) == self@,
    {
        &self.layers
    }

    /// A network drawn from the source: scalar by scalar in genome order,
    /// which is also layer by layer, neuron by neuron, bias before weights.
    /// The result is therefore a function of the drawn sequence alone — two
    /// identically seeded sources build networks equal bit for bit — and
    /// every drawn scalar lies in the closed interval from minus one to
    /// one.
    pub fn random<R: RandomSource>(rng: &mut R, topology: &Vec<LayerTopology>) -> (r: Network)
        requires
            topology@.len() >= 2,
            expected_len(widths(topology@)) <= usize::MAX,
        ensures
            network_wf(r@, widths(topology@)),
            network_in_range(r@),
    {
        let n = match genome_length(topology) {
            Some(n) => n,
            None => vstd::pervasive::unreached(),
        };
        let mut genes: Vec<u32> = Vec::new();
        while genes.len() < n
            invariant
                genes@.len() <= n,
                forall|k: int| 0 <= k < genes@.len() ==> is_weight_bits(#[trigger] genes@[k]),
            decreases n - genes@.len(),
        {
            genes.push(rng.next_weight());
        }
        proof {
            assert(widths(topology@).skip(0) =~= widths(topology@));
        }
        let layers = decode_layers(&genes, topology, 0, 0);
        let r = Network { layers };
        proof {
            let w = widths(topology@);
            assert(genes@.skip(0) =~= genes@);
            assert(r@ == network_from_genes(w, genes@));
            lemma_network_from_genes_wf(w, genes@);
            lemma_network_from_genes_in_range(w, genes@);
        }
        r
    }

    /// The network's scalars flattened into a genome, in the fixed order:
    /// layers in network order, neurons in layer order, for each neuron the
    /// bias and then the weights. Total, and exact to the bit.
    pub fn weights(&self) -> (r: Genome)
        ensures
            r@ == network_genes(self@),
    {
        let genes = encode_layers_from(&self.layers, 0);
        proof {
            assert(self.layers@.map_values(|lay: Layer| lay@).skip(0) =~= self@);
        }
        Genome { genes }
    }

    /// A network rebuilt from a genome, given only the topology. Succeeds
    /// exactly on a topology of at least two widths and a genome of exactly
    /// the expected length; nothing is truncated or padded.
    pub fn from_weights(topology: &Vec<LayerTopology>, genome: &Genome) -> (r: Result<
        Network,
        CoreError,
    >)
        ensures
            r is Ok <==> topology@.len() >= 2 && genome@.len() == expected_len(widths(topology@)),
            r matches Ok(net) ==> net@ == network_from_genes(widths(topology@), genome@)
                && network_wf(net@, widths(topology@)),
            topology@.len() < 2 ==> r == Err::<Network, CoreError>(CoreError::TopologyTooShort),
            topology@.len() >= 2 && genome@.len() != expected_len(widths(topology@))
                ==> r == Err::<Network, CoreError>(CoreError::GenomeLengthMismatch),
    {
        if topology.len() < 2 {
            return Err(CoreError::TopologyTooShort);
        }
        // The genome's actual length is bounded by the machine's word, so
        // an expected length beyond it can never be matched.
        let actual = genome.genes.len();
        let n = match genome_length(topology) {
            Some(n) => n,
            None => return Err(CoreError::GenomeLengthMismatch),
        };
        if actual != n {
            return Err(CoreError::GenomeLengthMismatch);
        }
        proof {
            assert(widths(topology@).skip(0) =~= widths(topology@));
        }
        let layers = decode_layers(&genome.genes, topology, 0, 0);
        let r = Network { layers };
        proof {
            let w = widths(topology@);
            assert(w.skip(0) =~= w);
            assert(genome@.skip(0) =~= genome@);
            lemma_network_from_genes_wf(w, genome@);
        }
        Ok(r)
    }
}

} // verus!

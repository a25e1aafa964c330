//! The genome codec, at the level of mathematical models: a network's
//! scalars flattened into one ordered gene sequence, and a network rebuilt
//! from such a sequence given only the topology.
//!
//! The fixed order is: layers in network order; within a layer, neurons in
//! order; for each neuron, the bias and then the weights left to right.
//! Because a seeded construction draws its scalars in the very same order,
//! one family of functions describes both building a network from random
//! draws and decoding a genome.

use vstd::prelude::*;
use crate::{CoreError, LayerTopology};
use crate::network::{
    Network, NeuronModel, layer_in_range, layer_wf, network_in_range, network_wf, neuron_in_range,
    neuron_wf, widths,
};
use crate::rng::is_weight_bits;

verus! {

/// A flat ordered sequence of genes, each the bit pattern of one scalar.
/// Genomes of networks built from one topology are directly comparable and
/// recombinable.
pub struct Genome {
    pub genes: Vec<u32>,
}

impl View for Genome {
    type V = Seq<u32>;

    open spec fn view(&self) -> Seq<u32> {
        self.genes@
    }
}

/// How many genes one neuron takes: its bias and one weight per input.
pub open spec fn stride(input: nat) -> nat {
    input + 1
}

/// How many genes one layer takes.
pub open spec fn layer_gene_count(input: nat, output: nat) -> nat {
    output * stride(input)
}

/// How many genes a whole network of the given widths takes: the sum over
/// layers of `(1 + input) * output`.
pub open spec fn expected_len(w: Seq<usize>) -> nat
    decreases w.len(),
{
    if w.len() < 2 {
        0
    } else {
        layer_gene_count(w[0] as nat, w[1] as nat) + expected_len(w.drop_first())
    }
}

/// The neuron written at the front of a gene sequence: the bias first, then
/// the weights.
pub open spec fn neuron_from_genes(input: nat, g: Seq<u32>) -> NeuronModel {
    NeuronModel { bias: g[0], weights: g.subrange(1, stride(input) as int) }
}

/// The layer of `output` neurons written at the front of a gene sequence,
/// neuron by neuron.
pub open spec fn layer_from_genes(input: nat, output: nat, g: Seq<u32>) -> Seq<NeuronModel>
    decreases output,
{
    if output == 0 {
        Seq::empty()
    } else {
        seq![neuron_from_genes(input, g)]
            + layer_from_genes(input, (output - 1) as nat, g.skip(stride(input) as int))
    }
}

/// The network of the given widths written in a gene sequence, layer by
/// layer. This one spec function determines both decoding and seeded
/// construction, which reads its scalars in the same order a genome lists
/// them.
pub open spec fn network_from_genes(w: Seq<usize>, g: Seq<u32>) -> Seq<Seq<NeuronModel>>
    decreases w.len(),
{
    if w.len() < 2 {
        Seq::empty()
    } else {
        seq![layer_from_genes(w[0] as nat, w[1] as nat, g)]
            + network_from_genes(
                w.drop_first(),
                g.skip(layer_gene_count(w[0] as nat, w[1] as nat) as int),
            )
    }
}

/// One neuron flattened: the bias, then the weights.
pub open spec fn neuron_genes(n: NeuronModel) -> Seq<u32> {
    seq![n.bias] + n.weights
}

/// One layer flattened, neuron by neuron.
pub open spec fn layer_genes(l: Seq<NeuronModel>) -> Seq<u32>
    decreases l.len(),
{
    if l.len() == 0 {
        Seq::empty()
    } else {
        neuron_genes(l[0]) + layer_genes(l.drop_first())
    }
}

/// A whole network flattened, layer by layer.
pub open spec fn network_genes(net: Seq<Seq<NeuronModel>>) -> Seq<u32>
    decreases net.len(),
{
    if net.len() == 0 {
        Seq::empty()
    } else {
        layer_genes(net[0]) + network_genes(net.drop_first())
    }
}

/// A well-formed layer flattens to exactly `(1 + input) * output` genes.
pub proof fn lemma_layer_genes_len(l: Seq<NeuronModel>, input: nat)
    requires
        forall|j: int| 0 <= j < l.len() ==> neuron_wf(#[trigger] l[j], input),
    ensures
        layer_genes(l).len() == layer_gene_count(input, l.len()),
    decreases l.len(),
{
    if l.len() == 0 {
    } else {
        assert(neuron_wf(l[0], input));
        assert(neuron_genes(l[0]).len() == stride(input));
        assert(forall|j: int| 0 <= j < l.drop_first().len()
            ==> neuron_wf(#[trigger] l.drop_first()[j], input)) by {
            assert(forall|j: int| 0 <= j < l.drop_first().len()
                ==> l.drop_first()[j] == l[j + 1]);
        }
        lemma_layer_genes_len(l.drop_first(), input);
        let s = stride(input) as int;
        let n = l.len() as int;
        assert(n * s == s + (n - 1) * s) by (nonlinear_arith)
            requires
                n >= 1,
        ;
    }
}

/// The genome length law: a well-formed network of widths `w` flattens to
/// exactly `expected_len(w)` genes, the sum over layers of
/// `(1 + input) * output`.
pub proof fn lemma_network_genes_len(net: Seq<Seq<NeuronModel>>, w: Seq<usize>)
    requires
        network_wf(net, w),
    ensures
        network_genes(net).len() == expected_len(w),
    decreases net.len(),
{
    if net.len() == 0 {
    } else {
        assert(layer_wf(net[0], w[0] as nat, w[1] as nat));
        lemma_layer_genes_len(net[0], w[0] as nat);
        assert(network_wf(net.drop_first(), w.drop_first())) by {
            assert(forall|l: int| 0 <= l < net.drop_first().len()
                ==> net.drop_first()[l] == net[l + 1]);
            assert(forall|l: int| 0 <= l < w.drop_first().len()
                ==> w.drop_first()[l] == w[l + 1]);
        }
        lemma_network_genes_len(net.drop_first(), w.drop_first());
    }
}

/// A layer read back from its own flattening, whatever follows it, is that
/// layer again.
proof fn lemma_layer_round_trip(l: Seq<NeuronModel>, input: nat, rest: Seq<u32>)
    requires
        forall|j: int| 0 <= j < l.len() ==> neuron_wf(#[trigger] l[j], input),
    ensures
        layer_from_genes(input, l.len(), layer_genes(l) + rest) == l,
    decreases l.len(),
{
    if l.len() == 0 {
        assert(layer_from_genes(input, 0, layer_genes(l) + rest) =~= l);
    } else {
        let tail = l.drop_first();
        let g = layer_genes(l) + rest;
        assert(neuron_wf(l[0], input));
        assert(neuron_genes(l[0]).len() == stride(input));
        // The flattening of `l` opens as the first neuron's genes followed
        // by the flattening of the tail.
        assert(g =~= neuron_genes(l[0]) + (layer_genes(tail) + rest));
        // The first neuron reads back exactly.
        assert(g[0] == l[0].bias);
        assert(g.subrange(1, stride(input) as int) =~= l[0].weights);
        assert(neuron_from_genes(input, g) =~= l[0]);
        // The remaining genes are the tail's flattening followed by `rest`.
        assert(g.skip(stride(input) as int) =~= layer_genes(tail) + rest);
        assert(forall|j: int| 0 <= j < tail.len() ==> neuron_wf(#[trigger] tail[j], input)) by {
            assert(forall|j: int| 0 <= j < tail.len() ==> tail[j] == l[j + 1]);
        }
        lemma_layer_round_trip(tail, input, rest);
        assert(layer_from_genes(input, l.len(), g)
            =~= seq![neuron_from_genes(input, g)]
                + layer_from_genes(input, tail.len(), g.skip(stride(input) as int)));
        assert(seq![l[0]] + tail =~= l);
    }
}

/// The codec round-trip law: decoding the flattening of a well-formed
/// network, under its own topology, yields the network again, gene for
/// gene. No arithmetic takes place on either side, so the trip is exact.
pub proof fn lemma_network_round_trip(net: Seq<Seq<NeuronModel>>, w: Seq<usize>)
    requires
        network_wf(net, w),
        w.len() >= 2,
    ensures
        network_from_genes(w, network_genes(net)) == net,
    decreases net.len(),
{
    let g = network_genes(net);
    let chunk = layer_gene_count(w[0] as nat, w[1] as nat);
    assert(layer_wf(net[0], w[0] as nat, w[1] as nat));
    lemma_layer_genes_len(net[0], w[0] as nat);
    assert(g =~= layer_genes(net[0]) + network_genes(net.drop_first()));
    lemma_layer_round_trip(net[0], w[0] as nat, network_genes(net.drop_first()));
    assert(layer_from_genes(w[0] as nat, w[1] as nat, g) == net[0]);
    assert(g.skip(chunk as int) =~= network_genes(net.drop_first()));
    assert(network_wf(net.drop_first(), w.drop_first())) by {
        assert(forall|l: int| 0 <= l < net.drop_first().len()
            ==> net.drop_first()[l] == net[l + 1]);
        assert(forall|l: int| 0 <= l < w.drop_first().len()
            ==> w.drop_first()[l] == w[l + 1]);
    }
    if net.len() == 1 {
        assert(network_from_genes(w.drop_first(), g.skip(chunk as int)) =~= Seq::empty());
    } else {
        lemma_network_round_trip(net.drop_first(), w.drop_first());
    }
    assert(network_from_genes(w, g)
        =~= seq![layer_from_genes(w[0] as nat, w[1] as nat, g)]
            + network_from_genes(w.drop_first(), g.skip(chunk as int)));
    assert(seq![net[0]] + net.drop_first() =~= net);
}

/// A layer read out of a gene sequence flattens back to the genes it read:
/// the first `(1 + input) * output` of them.
proof fn lemma_layer_genes_restored(input: nat, output: nat, g: Seq<u32>)
    requires
        g.len() >= layer_gene_count(input, output),
    ensures
        layer_genes(layer_from_genes(input, output, g)) == g.take(
            layer_gene_count(input, output) as int,
        ),
    decreases output,
{
    let chunk = layer_gene_count(input, output) as int;
    if output == 0 {
        assert(layer_genes(layer_from_genes(input, 0, g)) =~= g.take(0));
    } else {
        let s = stride(input) as int;
        assert((output as int) * s == s + (output - 1) * s) by (nonlinear_arith)
            requires
                output >= 1,
        ;
        let first = neuron_from_genes(input, g);
        let tail = layer_from_genes(input, (output - 1) as nat, g.skip(s));
        let l = layer_from_genes(input, output, g);
        assert(l == seq![first] + tail);
        assert((seq![first] + tail)[0] == first);
        assert((seq![first] + tail).drop_first() =~= tail);
        assert(neuron_genes(first) =~= g.take(s));
        lemma_layer_genes_restored(input, (output - 1) as nat, g.skip(s));
        assert(layer_genes(l) == neuron_genes(first) + layer_genes(tail));
        assert(g.take(s) + g.skip(s).take(chunk - s) =~= g.take(chunk));
    }
}

/// The complementary round trip: flattening the network a gene sequence of
/// exactly the expected length determines yields that sequence again, so
/// decoding loses nothing either.
pub proof fn lemma_genes_round_trip(w: Seq<usize>, g: Seq<u32>)
    requires
        g.len() == expected_len(w),
    ensures
        network_genes(network_from_genes(w, g)) == g,
    decreases w.len(),
{
    if w.len() < 2 {
        assert(network_genes(network_from_genes(w, g)) =~= g);
    } else {
        let chunk = layer_gene_count(w[0] as nat, w[1] as nat) as int;
        let first = layer_from_genes(w[0] as nat, w[1] as nat, g);
        let tail = network_from_genes(w.drop_first(), g.skip(chunk));
        let net = network_from_genes(w, g);
        assert(net == seq![first] + tail);
        assert((seq![first] + tail)[0] == first);
        assert((seq![first] + tail).drop_first() =~= tail);
        lemma_layer_genes_restored(w[0] as nat, w[1] as nat, g);
        lemma_genes_round_trip(w.drop_first(), g.skip(chunk));
        assert(network_genes(net) == layer_genes(first) + network_genes(tail));
        assert(g.take(chunk) + g.skip(chunk) =~= g);
    }
}

/// Every layer read out of a long enough gene sequence is well formed.
proof fn lemma_layer_from_genes_wf(input: nat, output: nat, g: Seq<u32>)
    requires
        g.len() >= layer_gene_count(input, output),
    ensures
        layer_wf(layer_from_genes(input, output, g), input, output),
    decreases output,
{
    if output == 0 {
    } else {
        let s = stride(input) as int;
        assert((output as int) * s == s + (output - 1) * s) by (nonlinear_arith)
            requires
                output >= 1,
        ;
        assert(layer_gene_count(input, output)
            == stride(input) + layer_gene_count(input, (output - 1) as nat));
        assert(neuron_wf(neuron_from_genes(input, g), input));
        lemma_layer_from_genes_wf(input, (output - 1) as nat, g.skip(stride(input) as int));
        let l = layer_from_genes(input, output, g);
        let tail = layer_from_genes(input, (output - 1) as nat, g.skip(stride(input) as int));
        assert(forall|j: int| 0 <= j < l.len() ==> neuron_wf(#[trigger] l[j], input)) by {
            assert(forall|j: int| 1 <= j < l.len() ==> l[j] == tail[j - 1]);
        }
    }
}

/// A layer read out of genes that all lie in the weight interval is in
/// range itself: its scalars are those genes.
proof fn lemma_layer_from_genes_in_range(input: nat, output: nat, g: Seq<u32>)
    requires
        g.len() >= layer_gene_count(input, output),
        forall|k: int| 0 <= k < g.len() ==> is_weight_bits(#[trigger] g[k]),
    ensures
        layer_in_range(layer_from_genes(input, output, g)),
    decreases output,
{
    if output == 0 {
    } else {
        let s = stride(input) as int;
        assert((output as int) * s == s + (output - 1) * s) by (nonlinear_arith)
            requires
                output >= 1,
        ;
        let first = neuron_from_genes(input, g);
        assert(neuron_in_range(first)) by {
            assert(forall|k: int| 0 <= k < first.weights.len()
                ==> #[trigger] first.weights[k] == g[k + 1]);
        }
        let rest = g.skip(s);
        assert(forall|k: int| 0 <= k < rest.len() ==> is_weight_bits(#[trigger] rest[k])) by {
            assert(forall|k: int| 0 <= k < rest.len() ==> rest[k] == g[k + s]);
        }
        lemma_layer_from_genes_in_range(input, (output - 1) as nat, rest);
        let l = layer_from_genes(input, output, g);
        let tail = layer_from_genes(input, (output - 1) as nat, rest);
        assert(forall|j: int| 0 <= j < l.len() ==> neuron_in_range(#[trigger] l[j])) by {
            assert(forall|j: int| 1 <= j < l.len() ==> l[j] == tail[j - 1]);
        }
    }
}

/// A network read out of genes that all lie in the weight interval is in
/// range: freshly drawn genes yield a network of in-range scalars.
pub proof fn lemma_network_from_genes_in_range(w: Seq<usize>, g: Seq<u32>)
    requires
        g.len() == expected_len(w),
        forall|k: int| 0 <= k < g.len() ==> is_weight_bits(#[trigger] g[k]),
    ensures
        network_in_range(network_from_genes(w, g)),
    decreases w.len(),
{
    if w.len() < 2 {
    } else {
        let chunk = layer_gene_count(w[0] as nat, w[1] as nat) as int;
        lemma_layer_from_genes_in_range(w[0] as nat, w[1] as nat, g);
        let rest = g.skip(chunk);
        assert(forall|k: int| 0 <= k < rest.len() ==> is_weight_bits(#[trigger] rest[k])) by {
            assert(forall|k: int| 0 <= k < rest.len() ==> rest[k] == g[k + chunk]);
        }
        lemma_network_from_genes_in_range(w.drop_first(), rest);
        let net = network_from_genes(w, g);
        let tail = network_from_genes(w.drop_first(), rest);
        assert(forall|l: int| 0 <= l < net.len() ==> layer_in_range(#[trigger] net[l])) by {
            assert(forall|l: int| 1 <= l < net.len() ==> net[l] == tail[l - 1]);
        }
    }
}

/// Every network read out of a gene sequence of exactly the expected length
/// is well formed: one layer per adjacent pair of widths, each of the
/// announced shape.
pub proof fn lemma_network_from_genes_wf(w: Seq<usize>, g: Seq<u32>)
    requires
        w.len() >= 1,
        g.len() == expected_len(w),
    ensures
        network_wf(network_from_genes(w, g), w),
    decreases w.len(),
{
    if w.len() < 2 {
        assert(network_from_genes(w, g) =~= Seq::empty());
    } else {
        let chunk = layer_gene_count(w[0] as nat, w[1] as nat);
        lemma_layer_from_genes_wf(w[0] as nat, w[1] as nat, g);
        lemma_network_from_genes_wf(w.drop_first(), g.skip(chunk as int));
        let net = network_from_genes(w, g);
        let tail = network_from_genes(w.drop_first(), g.skip(chunk as int));
        assert(forall|l: int| 0 <= l < net.len()
            ==> layer_wf(#[trigger] net[l], w[l] as nat, w[l + 1] as nat)) by {
            assert(forall|l: int| 1 <= l < net.len() ==> net[l] == tail[l - 1]);
            assert(forall|l: int| 0 <= l < w.drop_first().len()
                ==> w.drop_first()[l] == w[l + 1]);
        }
    }
}

/// The gene count the topology requires from pair `l` onward, or nothing
/// where that count exceeds the machine's word.
fn genome_length_from(topology: &Vec<LayerTopology>, l: usize) -> (r: Option<usize>)
    requires
        l <= topology@.len(),
    ensures
        r matches Some(n) ==> n == expected_len(widths(topology@).skip(l as int)),
        r is None ==> expected_len(widths(topology@).skip(l as int)) > usize::MAX,
    decreases topology@.len() - l,
{
    let ghost w = widths(topology@).skip(l as int);
    if topology.len() - l < 2 {
        Some(0)
    } else {
        let input = topology[l].neurons;
        let output = topology[l + 1].neurons;
        proof {
            assert(w[0] == widths(topology@)[l as int]);
            assert(w[1] == widths(topology@)[l as int + 1]);
            assert(w.drop_first() =~= widths(topology@).skip(l as int + 1));
            assert(expected_len(w)
                == layer_gene_count(input as nat, output as nat) + expected_len(w.drop_first()));
        }
        let ghost chunk_spec = layer_gene_count(input as nat, output as nat);
        let rest = genome_length_from(topology, l + 1);
        if rest.is_none() {
            assert(expected_len(w) > usize::MAX);
            return None;
        }
        let n = rest.unwrap();
        if output == 0 {
            proof {
                let s = stride(input as nat) as int;
                assert(0int * s == 0) by (nonlinear_arith);
            }
            assert(chunk_spec == 0);
            assert(n == expected_len(w));
            return Some(n);
        }
        let s_opt = input.checked_add(1);
        if s_opt.is_none() {
            proof {
                assert((output as int) * (usize::MAX as int + 1) >= usize::MAX as int + 1)
                    by (nonlinear_arith)
                    requires
                        output >= 1,
                ;
                assert(chunk_spec > usize::MAX);
                assert(expected_len(w) > usize::MAX);
            }
            return None;
        }
        let s = s_opt.unwrap();
        let chunk_opt = output.checked_mul(s);
        if chunk_opt.is_none() {
            assert(expected_len(w) > usize::MAX);
            return None;
        }
        let chunk = chunk_opt.unwrap();
        assert(chunk == chunk_spec);
        let total = chunk.checked_add(n);
        proof {
            if total is Some {
                assert(total->0 == expected_len(w));
            } else {
                assert(expected_len(w) > usize::MAX);
            }
        }
        total
    }
}

/// The number of genes a network of the given topology carries: the sum
/// over layers of `(1 + input) * output`, or nothing where that sum
/// exceeds the machine's word.
pub fn genome_length(topology: &Vec<LayerTopology>) -> (r: Option<usize>)
    ensures
        r matches Some(n) ==> n == expected_len(widths(topology@)),
        r is None ==> expected_len(widths(topology@)) > usize::MAX,
{
    proof {
        assert(widths(topology@).skip(0) =~= widths(topology@));
    }
    genome_length_from(topology, 0)
}

/// A network's genome: its scalars flattened in the fixed order. Pure and
/// total; always succeeds on a well-formed network.
pub fn encode(network: &Network) -> (r: Genome)
    ensures
        r@ == network_genes(network@),
{
    network.weights()
}

/// The network a genome describes under the given topology. Succeeds
/// exactly on a topology of at least two widths and a genome of exactly the
/// expected length, and then returns the one network the genes determine.
pub fn decode(genome: &Genome, topology: &Vec<LayerTopology>) -> (r: Result<Network, CoreError>)
    ensures
        r is Ok <==> topology@.len() >= 2 && genome@.len() == expected_len(widths(topology@)),
        r matches Ok(net) ==> net@ == network_from_genes(widths(topology@), genome@)
            && network_wf(net@, widths(topology@)),
        topology@.len() < 2 ==> r == Err::<Network, CoreError>(CoreError::TopologyTooShort),
        topology@.len() >= 2 && genome@.len() != expected_len(widths(topology@))
            ==> r == Err::<Network, CoreError>(CoreError::GenomeLengthMismatch),
{
    Network::from_weights(topology, genome)
}

/// Determinism of construction: the network a gene sequence determines is a
/// function of that sequence alone, so two constructions that consume
/// identical draws yield identical networks bit for bit.
pub proof fn lemma_build_deterministic(w: Seq<usize>, draws1: Seq<u32>, draws2: Seq<u32>)
    requires
        draws1 == draws2,
    ensures
        network_from_genes(w, draws1) == network_from_genes(w, draws2),
{
}

} // verus!

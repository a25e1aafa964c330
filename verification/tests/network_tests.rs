use neuroevolution::LayerTopology;
use neuroevolution::genome::{decode, encode, genome_length, Genome};
use neuroevolution::network::{Layer, Network, Neuron};
use neuroevolution::rng::RandomSource;
use neuroevolution::CoreError;
use rand::Rng;
use rand::SeedableRng;
use rand_chacha::ChaCha8Rng;

/// The embedder's generator: a seeded ChaCha stream, its draws converted to
/// bit patterns at the boundary.
struct ChaChaSource {
    rng: ChaCha8Rng,
}

impl ChaChaSource {
    fn zero_seeded() -> ChaChaSource {
        ChaChaSource { rng: ChaCha8Rng::from_seed(Default::default()) }
    }
}

impl RandomSource for ChaChaSource {
    fn next_weight(&mut self) -> u32 {
        self.rng.gen_range(-1.0f32..=1.0f32).to_bits()
    }

    fn next_index(&mut self, n: usize) -> usize {
        self.rng.gen_range(0..n)
    }

    fn weighted_index(&mut self, weights: &Vec<u32>) -> usize {
        let ws: Vec<f32> = weights.iter().map(|w| f32::from_bits(*w)).collect();
        // The drawn index must carry positive weight; guard the degenerate
        // cases by falling back to the first positive weight.
        let total: f32 = ws.iter().sum();
        if total.is_finite() {
            if let Ok(dist) = rand::distributions::WeightedIndex::new(&ws) {
                let idx = self.rng.sample(dist);
                if ws[idx] > 0.0 {
                    return idx;
                }
            }
        }
        ws.iter().position(|w| *w > 0.0).unwrap_or(0)
    }

    fn flip(&mut self, probability: u32) -> bool {
        self.rng.gen_bool(f32::from_bits(probability) as f64)
    }

    fn perturb(&mut self, gene: u32, magnitude: u32) -> u32 {
        let sign: f32 = if self.rng.gen_bool(0.5) { 1.0 } else { -1.0 };
        (f32::from_bits(gene) + sign * f32::from_bits(magnitude)).to_bits()
    }
}

fn topology_3_2_1() -> Vec<LayerTopology> {
    vec![
        LayerTopology { neurons: 3 },
        LayerTopology { neurons: 2 },
        LayerTopology { neurons: 1 },
    ]
}

fn neuron_bias(n: &Neuron) -> f32 {
    f32::from_bits(n.bias())
}

fn neuron_weights(n: &Neuron) -> Vec<f32> {
    n.weights().iter().map(|w| f32::from_bits(*w)).collect()
}

fn layer_neurons(l: &Layer) -> &Vec<Neuron> {
    l.neurons()
}

#[test]
fn test_neuron_random() {
    let mut rng = ChaChaSource::zero_seeded();
    let neuron = Neuron::random(&mut rng, 4);

    assert_eq!(neuron_bias(&neuron), -0.6255188);
    assert_eq!(
        neuron_weights(&neuron),
        vec![0.67383957, 0.8181262, 0.26284897, 0.5238807]
    );
}

#[test]
fn test_layer_random() {
    let mut rng = ChaChaSource::zero_seeded();
    let layer = Layer::random(&mut rng, 3, 2);

    assert_eq!(layer_neurons(&layer).len(), 2);
    assert_eq!(layer_neurons(&layer)[0].weights().len(), 3);
    assert_eq!(layer_neurons(&layer)[1].weights().len(), 3);

    assert_eq!(neuron_bias(&layer_neurons(&layer)[0]), -0.6255188);
    assert_eq!(neuron_bias(&layer_neurons(&layer)[1]), 0.5238807);

    assert_eq!(
        neuron_weights(&layer_neurons(&layer)[0]),
        vec![0.67383957, 0.8181262, 0.26284897]
    );
    assert_eq!(
        neuron_weights(&layer_neurons(&layer)[1]),
        vec![-0.53516835, 0.069369674, -0.7648182]
    );
}

#[test]
fn test_network_random() {
    let mut rng = ChaChaSource::zero_seeded();
    let network = Network::random(&mut rng, &topology_3_2_1());

    // Layers come from adjacent pairs of widths.
    assert_eq!(network.layers().len(), 2);

    // The first pair, 3 then 2: two output neurons, three weights each.
    assert_eq!(layer_neurons(&network.layers()[0]).len(), 2);
    assert_eq!(layer_neurons(&network.layers()[0])[0].weights().len(), 3);
    assert_eq!(neuron_bias(&layer_neurons(&network.layers()[0])[0]), -0.6255188);
    assert_eq!(
        neuron_weights(&layer_neurons(&network.layers()[0])[0]),
        vec![0.67383957, 0.8181262, 0.26284897]
    );
    assert_eq!(neuron_bias(&layer_neurons(&network.layers()[0])[1]), 0.5238807);
    assert_eq!(
        neuron_weights(&layer_neurons(&network.layers()[0])[1]),
        vec![-0.53516835, 0.069369674, -0.7648182]
    );

    // The second pair, 2 then 1: one output neuron, two weights.
    assert_eq!(layer_neurons(&network.layers()[1]).len(), 1);
    assert_eq!(layer_neurons(&network.layers()[1])[0].weights().len(), 2);
    assert_eq!(neuron_bias(&layer_neurons(&network.layers()[1])[0]), -0.102499366);
    assert_eq!(
        neuron_weights(&layer_neurons(&network.layers()[1])[0]),
        vec![-0.48879617, -0.19277132]
    );
}

#[test]
fn identically_seeded_sources_build_identical_networks() {
    let topology = topology_3_2_1();
    let mut rng_a = ChaChaSource::zero_seeded();
    let mut rng_b = ChaChaSource::zero_seeded();

    let network_a = Network::random(&mut rng_a, &topology);
    let network_b = Network::random(&mut rng_b, &topology);

    assert_eq!(encode(&network_a).genes, encode(&network_b).genes);
}

#[test]
fn random_networks_hold_only_scalars_in_range() {
    let mut rng = ChaChaSource::zero_seeded();
    let network = Network::random(&mut rng, &topology_3_2_1());
    for gene in &encode(&network).genes {
        let v = f32::from_bits(*gene);
        assert!((-1.0..=1.0).contains(&v));
    }
}

#[test]
fn genome_length_matches_the_sum_over_layers() {
    let topology = topology_3_2_1();
    // (1 + 3) * 2 + (1 + 2) * 1
    assert_eq!(genome_length(&topology), Some(11));

    let mut rng = ChaChaSource::zero_seeded();
    let network = Network::random(&mut rng, &topology);
    assert_eq!(encode(&network).genes.len(), 11);
}

#[test]
fn codec_round_trip_is_exact() {
    let topology = topology_3_2_1();
    let mut rng = ChaChaSource::zero_seeded();
    let network = Network::random(&mut rng, &topology);

    let genome = encode(&network);
    let rebuilt = decode(&genome, &topology).unwrap();

    assert_eq!(encode(&rebuilt).genes, genome.genes);
}

#[test]
fn from_weights_round_trips_through_weights() {
    let topology = topology_3_2_1();
    let mut rng = ChaChaSource::zero_seeded();
    let network = Network::random(&mut rng, &topology);

    let genome = network.weights();
    let rebuilt = Network::from_weights(&topology, &genome).unwrap();

    assert_eq!(rebuilt.weights().genes, genome.genes);
}

#[test]
fn genome_length_reports_an_unrepresentable_topology() {
    let topology = vec![
        LayerTopology { neurons: usize::MAX },
        LayerTopology { neurons: usize::MAX },
    ];
    assert_eq!(genome_length(&topology), None);
}

#[test]
fn neuron_parts_read_back() {
    let neuron = Neuron::new(0.5f32.to_bits(), vec![(-0.3f32).to_bits(), 0.8f32.to_bits()]);
    assert_eq!(neuron_bias(&neuron), 0.5);
    assert_eq!(neuron_weights(&neuron), vec![-0.3, 0.8]);
}

#[test]
fn decode_rejects_a_short_topology() {
    let genome = Genome { genes: vec![] };
    let topology = vec![LayerTopology { neurons: 3 }];
    assert_eq!(decode(&genome, &topology).unwrap_err(), CoreError::TopologyTooShort);
}

#[test]
fn decode_rejects_a_genome_of_the_wrong_length() {
    let topology = topology_3_2_1();
    let genome = Genome { genes: vec![0; 10] };
    assert_eq!(
        decode(&genome, &topology).unwrap_err(),
        CoreError::GenomeLengthMismatch
    );
}

use neuroevolution::genetic::{
    AdditiveMutation, Candidate, CrossoverMethod, GeneticAlgorithm, Individual, MutationMethod,
    RouletteWheelSelection, SelectionMethod, UniformCrossover,
};
use neuroevolution::genome::Genome;
use neuroevolution::rng::RandomSource;
use neuroevolution::CoreError;

/// A deterministic stand-in for a generator, so every outcome here is a
/// fixed expectation rather than a draw.
struct FakeSource {
    /// Scripted coin results for `flip`, consumed front to back; once the
    /// script runs out, every further flip is false.
    coins: Vec<bool>,
    next_coin: usize,
}

impl FakeSource {
    fn new(coins: Vec<bool>) -> FakeSource {
        FakeSource { coins, next_coin: 0 }
    }

    fn silent() -> FakeSource {
        FakeSource::new(vec![])
    }
}

impl RandomSource for FakeSource {
    fn next_weight(&mut self) -> u32 {
        0
    }

    fn next_index(&mut self, _n: usize) -> usize {
        0
    }

    fn weighted_index(&mut self, weights: &Vec<u32>) -> usize {
        // The first index of positive weight, as the contract asks.
        weights.iter().position(|w| *w != 0).unwrap()
    }

    fn flip(&mut self, probability: u32) -> bool {
        let p = f32::from_bits(probability);
        if p >= 1.0 {
            return true;
        }
        if p <= 0.0 {
            return false;
        }
        let coin = self.coins.get(self.next_coin).copied().unwrap_or(false);
        self.next_coin += 1;
        coin
    }

    fn perturb(&mut self, gene: u32, magnitude: u32) -> u32 {
        // Always moves up; a direction choice is still a legal draw.
        (f32::from_bits(gene) + f32::from_bits(magnitude)).to_bits()
    }
}

fn genome_of(values: &[f32]) -> Genome {
    Genome { genes: values.iter().map(|v| v.to_bits()).collect() }
}

fn values_of(genome: &Genome) -> Vec<f32> {
    genome.genes.iter().map(|g| f32::from_bits(*g)).collect()
}

fn scored(genes: &[f32], fitness: f32) -> Candidate {
    Candidate { genome: genome_of(genes), fitness: fitness.to_bits() }
}

#[test]
fn roulette_prefers_the_only_positive_fitness() {
    let population = vec![
        scored(&[1.0], -3.0),
        scored(&[2.0], 4.5),
        scored(&[3.0], 0.0),
    ];
    let mut rng = FakeSource::silent();
    let picked = RouletteWheelSelection.pick(&mut rng, &population);
    assert_eq!(f32::from_bits(picked.fitness()), 4.5);
}

#[test]
fn roulette_falls_back_to_uniform_on_nonpositive_fitness() {
    let population = vec![scored(&[1.0], -3.0), scored(&[2.0], 0.0)];
    let mut rng = FakeSource::silent();
    let picked = RouletteWheelSelection.pick(&mut rng, &population);
    // The fallback is a uniform draw; the stand-in always answers zero.
    assert_eq!(values_of(picked.genome()), vec![1.0]);
}

#[test]
fn uniform_crossover_mixes_parents_per_gene() {
    let parent_a = genome_of(&[1.0, 2.0, 3.0, 4.0]);
    let parent_b = genome_of(&[-1.0, -2.0, -3.0, -4.0]);
    let mut rng = FakeSource::new(vec![true, false, false, true]);
    let child = UniformCrossover.combine(&mut rng, &parent_a, &parent_b);
    assert_eq!(values_of(&child), vec![1.0, -2.0, -3.0, 4.0]);
}

#[test]
fn crossover_preserves_length() {
    let parent_a = genome_of(&[1.0, 2.0, 3.0]);
    let parent_b = genome_of(&[4.0, 5.0, 6.0]);
    let mut rng = FakeSource::new(vec![true, true, false]);
    let child = UniformCrossover.crossover(&mut rng, &parent_a, &parent_b);
    assert_eq!(child.genes.len(), 3);
}

#[test]
fn mutation_with_zero_chance_changes_nothing() {
    let mutation = AdditiveMutation::new(0.0f32.to_bits(), 0.1f32.to_bits()).unwrap();
    let mut genome = genome_of(&[1.0, -2.0, 3.5]);
    let mut rng = FakeSource::silent();
    mutation.mutate(&mut rng, &mut genome);
    assert_eq!(values_of(&genome), vec![1.0, -2.0, 3.5]);
}

#[test]
fn mutation_with_full_chance_moves_every_gene() {
    let mutation = AdditiveMutation::new(1.0f32.to_bits(), 0.5f32.to_bits()).unwrap();
    let mut genome = genome_of(&[1.0, -2.0]);
    let mut rng = FakeSource::silent();
    mutation.mutate(&mut rng, &mut genome);
    // The stand-in always moves up by the strength.
    assert_eq!(values_of(&genome), vec![1.5, -1.5]);
}

#[test]
fn mutation_rejects_a_chance_outside_the_unit_interval() {
    assert_eq!(
        AdditiveMutation::new(1.5f32.to_bits(), 0.1f32.to_bits()).unwrap_err(),
        CoreError::MutationChanceOutOfRange
    );
    assert_eq!(
        AdditiveMutation::new((-0.1f32).to_bits(), 0.1f32.to_bits()).unwrap_err(),
        CoreError::MutationChanceOutOfRange
    );
    assert_eq!(
        AdditiveMutation::new(f32::NAN.to_bits(), 0.1f32.to_bits()).unwrap_err(),
        CoreError::MutationChanceOutOfRange
    );
}

#[test]
fn mutation_rejects_an_invalid_strength() {
    assert_eq!(
        AdditiveMutation::new(0.5f32.to_bits(), (-0.1f32).to_bits()).unwrap_err(),
        CoreError::MutationStrengthInvalid
    );
    assert_eq!(
        AdditiveMutation::new(0.5f32.to_bits(), f32::INFINITY.to_bits()).unwrap_err(),
        CoreError::MutationStrengthInvalid
    );
}

#[test]
fn evolve_keeps_the_population_cardinality() {
    let population = vec![
        scored(&[1.0, 2.0], 1.0),
        scored(&[3.0, 4.0], 2.0),
        scored(&[5.0, 6.0], 3.0),
    ];
    let driver = GeneticAlgorithm::new(
        RouletteWheelSelection,
        UniformCrossover,
        AdditiveMutation::new(0.0f32.to_bits(), 0.1f32.to_bits()).unwrap(),
    );
    let mut rng = FakeSource::silent();
    let next = driver.evolve(&mut rng, &population);
    assert_eq!(next.len(), 3);
    for genome in &next {
        assert_eq!(genome.genes.len(), 2);
    }
}

#[test]
fn evolve_breeds_from_the_positive_parent() {
    // One individual holds all the fitness; with mutation off, every child
    // must be its genome.
    let population = vec![scored(&[7.0, 8.0], 5.0), scored(&[1.0, 2.0], -1.0)];
    let driver = GeneticAlgorithm::new(
        RouletteWheelSelection,
        UniformCrossover,
        AdditiveMutation::new(0.0f32.to_bits(), 0.1f32.to_bits()).unwrap(),
    );
    let mut rng = FakeSource::silent();
    let next = driver.evolve(&mut rng, &population);
    assert_eq!(next.len(), 2);
    for genome in &next {
        assert_eq!(values_of(genome), vec![7.0, 8.0]);
    }
}

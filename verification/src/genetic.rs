//! The genetic-algorithm driver and its strategies: selection of parents by
//! fitness, crossover of two parent genomes into a child, mutation of the
//! child, one generation at a time.
//!
//! Each strategy is a trait with one verified variant, so new policies can
//! be added without touching the driver. The driver owns no state across
//! generations: it is a pure transform from a scored population and a
//! random source to the next generation's genomes.

use vstd::prelude::*;
use crate::CoreError;
use crate::genome::Genome;
use crate::rng::{RandomSource, finite_nonneg_bits, is_finite_nonneg_bits, is_unit_interval_bits, unit_interval_bits};

verus! {

/// True of a fitness pattern that counts as strictly positive: a finite
/// positive number. A NaN, an infinity or anything non-positive carries no
/// selection weight.
pub open spec fn is_positive_fitness(b: u32) -> bool {
    is_finite_nonneg_bits(b) && b != 0u32
}

/// The selection weight of a fitness pattern: the fitness itself where it
/// is finite and strictly positive, zero otherwise.
pub open spec fn clamp_weight(b: u32) -> u32 {
    if is_positive_fitness(b) {
        b
    } else {
        0u32
    }
}

/// One member of a population: something that exposes a genome and the
/// fitness score the environment assigned to it.
pub trait Individual {
    /// The fitness as a bit pattern, in specifications.
    spec fn spec_fitness(&self) -> u32;

    /// The genes, in specifications.
    spec fn spec_genome(&self) -> Seq<u32>;

    /// The fitness score as a bit pattern; higher is better, and the
    /// environment is expected to keep it finite.
    fn fitness(&self) -> (r: u32)
        ensures
            r == self.spec_fitness(),
    ;

    /// The genome.
    fn genome(&self) -> (g: &Genome)
        ensures
            g@ == self.spec_genome(),
    ;
}

/// The plain individual: a genome paired with the fitness score it earned.
pub struct Candidate {
    pub genome: Genome,
    pub fitness: u32,
}

impl Individual for Candidate {
    open spec fn spec_fitness(&self) -> u32 {
        self.fitness
    }

    open spec fn spec_genome(&self) -> Seq<u32> {
        self.genome@
    }

    fn fitness(&self) -> u32 {
        self.fitness
    }

    fn genome(&self) -> &Genome {
        &self.genome
    }
}

/// A policy that picks one parent out of a scored population, biased toward
/// higher fitness.
pub trait SelectionMethod {
    /// One individual out of the population; never called on an empty one.
    fn select<'a, R: RandomSource, I: Individual>(
        &self,
        rng: &mut R,
        population: &'a Vec<I>,
    ) -> (r: &'a I)
        requires
            population@.len() > 0,
        ensures
            exists|i: int| 0 <= i < population@.len() && *r == population@[i],
    ;
}

/// Fitness-proportionate selection: an individual's probability is its
/// fitness over the population's total. Non-positive (or non-finite)
/// fitness counts as weight zero; where no individual has positive weight,
/// the pick falls back to a uniform draw.
pub struct RouletteWheelSelection;

impl RouletteWheelSelection {
    /// The roulette pick. Beyond membership, it promises the bias: whenever
    /// any individual has finite positive fitness, so has the one picked.
    pub fn pick<'a, R: RandomSource, I: Individual>(
        &self,
        rng: &mut R,
        population: &'a Vec<I>,
    ) -> (r: &'a I)
        requires
            population@.len() > 0,
        ensures
            exists|i: int| 0 <= i < population@.len() && *r == population@[i],
            (exists|i: int|
                0 <= i < population@.len()
                && is_positive_fitness(#[trigger] population@[i].spec_fitness()))
                ==> is_positive_fitness(r.spec_fitness()),
    {
        let n = population.len();
        let mut wts: Vec<u32> = Vec::new();
        let mut any_pos = false;
        let mut i: usize = 0;
        while i < n
            invariant
                n == population@.len(),
                i <= n,
                wts@.len() == i,
                forall|j: int| 0 <= j < i
                    ==> #[trigger] wts@[j] == clamp_weight(population@[j].spec_fitness()),
                any_pos <==> exists|j: int|
                    0 <= j < i && is_positive_fitness(#[trigger] population@[j].spec_fitness()),
            decreases n - i,
        {
            let f = population[i].fitness();
            if finite_nonneg_bits(f) && f != 0u32 {
                wts.push(f);
                any_pos = true;
            } else {
                wts.push(0u32);
            }
            i = i + 1;
        }
        let idx = if any_pos {
            proof {
                assert(0u32 & 0x8000_0000u32 == 0u32) by (bit_vector);
                assert(0u32 & 0x7F80_0000u32 != 0x7F80_0000u32) by (bit_vector);
                let j = choose|j: int|
                    0 <= j < n && is_positive_fitness(#[trigger] population@[j].spec_fitness());
                assert(wts@[j] != 0u32);
            }
            rng.weighted_index(&wts)
        } else {
            rng.next_index(n)
        };
        proof {
            if any_pos {
                assert(clamp_weight(population@[idx as int].spec_fitness()) != 0u32);
            }
        }
        &population[idx]
    }
}

impl SelectionMethod for RouletteWheelSelection {
    fn select<'a, R: RandomSource, I: Individual>(
        &self,
        rng: &mut R,
        population: &'a Vec<I>,
    ) -> (r: &'a I) {
        self.pick(rng, population)
    }
}

/// A policy that combines two parent genomes of equal length into one child
/// genome. Unequal lengths mean the caller mixed topologies, which is a
/// caller bug and stays excluded.
pub trait CrossoverMethod {
    /// The child genome, of the parents' common length.
    fn crossover<R: RandomSource>(
        &self,
        rng: &mut R,
        parent_a: &Genome,
        parent_b: &Genome,
    ) -> (child: Genome)
        requires
            parent_a@.len() == parent_b@.len(),
        ensures
            child@.len() == parent_a@.len(),
    ;
}

/// The bit pattern of one half: the probability of an even coin.
pub const EVEN_CHANCE: u32 = 0x3F00_0000;

/// One half is a probability.
proof fn lemma_even_chance_valid()
    ensures
        is_unit_interval_bits(EVEN_CHANCE),
{
    assert(0x3F00_0000u32 & 0x8000_0000u32 == 0u32) by (bit_vector);
}

/// Uniform crossover: each child gene comes from parent A or parent B with
/// equal probability, independently per index.
pub struct UniformCrossover;

impl UniformCrossover {
    /// The uniform mix. Beyond the length, it promises that every child
    /// gene is one of the two parents' genes at that same index.
    pub fn combine<R: RandomSource>(
        &self,
        rng: &mut R,
        parent_a: &Genome,
        parent_b: &Genome,
    ) -> (child: Genome)
        requires
            parent_a@.len() == parent_b@.len(),
        ensures
            child@.len() == parent_a@.len(),
            forall|i: int| 0 <= i < child@.len()
                ==> #[trigger] child@[i] == parent_a@[i] || child@[i] == parent_b@[i],
    {
        let n = parent_a.genes.len();
        let mut genes: Vec<u32> = Vec::new();
        while genes.len() < n
            invariant
                n == parent_a@.len(),
                parent_a@.len() == parent_b@.len(),
                genes@.len() <= n,
                forall|i: int| 0 <= i < genes@.len()
                    ==> #[trigger] genes@[i] == parent_a@[i] || genes@[i] == parent_b@[i],
            decreases n - genes@.len(),
        {
            let k = genes.len();
            proof {
                lemma_even_chance_valid();
            }
            let take_a = rng.flip(EVEN_CHANCE);
            if take_a {
                genes.push(parent_a.genes[k]);
            } else {
                genes.push(parent_b.genes[k]);
            }
        }
        Genome { genes }
    }
}

impl CrossoverMethod for UniformCrossover {
    fn crossover<R: RandomSource>(
        &self,
        rng: &mut R,
        parent_a: &Genome,
        parent_b: &Genome,
    ) -> (child: Genome) {
        self.combine(rng, parent_a, parent_b)
    }
}

/// A policy that perturbs a genome in place, gene by gene.
pub trait MutationMethod {
    /// Mutates the genome in place, keeping its length.
    fn mutate<R: RandomSource>(&self, rng: &mut R, genome: &mut Genome)
        ensures
            final(genome)@.len() == old(genome)@.len(),
    ;
}

/// Additive mutation: each gene independently, with the configured chance,
/// moves by the configured strength, the direction drawn uniformly; the
/// move is additive and unclamped, so repeated mutation may push genes
/// outside the interval they were first drawn from — by design, this is how
/// the search explores.
#[derive(Clone, Copy, Debug)]
pub struct AdditiveMutation {
    chance: u32,
    strength: u32,
}

impl AdditiveMutation {
    /// Both settings are validated here, at construction, never at use
    /// time.
    #[verifier::type_invariant]
    spec fn valid(&self) -> bool {
        is_unit_interval_bits(self.chance) && is_finite_nonneg_bits(self.strength)
    }

    /// The configured per-gene chance, in specifications.
    pub closed spec fn spec_chance(&self) -> u32 {
        self.chance
    }

    /// The configured strength, in specifications.
    pub closed spec fn spec_strength(&self) -> u32 {
        self.strength
    }

    /// A mutation policy from the per-gene chance (a probability) and the
    /// strength (a finite non-negative magnitude), both as bit patterns.
    /// A chance outside the unit interval, or a negative or non-finite
    /// strength, is refused here rather than at use time.
    pub fn new(chance: u32, strength: u32) -> (r: Result<AdditiveMutation, CoreError>)
        ensures
            r is Ok <==> is_unit_interval_bits(chance) && is_finite_nonneg_bits(strength),
            r matches Ok(m) ==> m.spec_chance() == chance && m.spec_strength() == strength,
            !is_unit_interval_bits(chance)
                ==> r == Err::<AdditiveMutation, CoreError>(CoreError::MutationChanceOutOfRange),
            is_unit_interval_bits(chance) && !is_finite_nonneg_bits(strength)
                ==> r == Err::<AdditiveMutation, CoreError>(CoreError::MutationStrengthInvalid),
    {
        if !unit_interval_bits(chance) {
            return Err(CoreError::MutationChanceOutOfRange);
        }
        if !finite_nonneg_bits(strength) {
            return Err(CoreError::MutationStrengthInvalid);
        }
        Ok(AdditiveMutation { chance, strength })
    }
}

impl MutationMethod for AdditiveMutation {
    /// Beyond keeping the length, a chance of zero provably changes
    /// nothing: every per-gene coin is bound to come up still.
    fn mutate<R: RandomSource>(&self, rng: &mut R, genome: &mut Genome)
        ensures
            self.spec_chance() == 0u32 ==> final(genome)@ == old(genome)@,
    {
        proof {
            use_type_invariant(&*self);
        }
        let n = genome.genes.len();
        let mut out: Vec<u32> = Vec::new();
        while out.len() < n
            invariant
                genome@ == old(genome)@,
                n == genome@.len(),
                out@.len() <= n,
                is_unit_interval_bits(self.chance),
                is_finite_nonneg_bits(self.strength),
                self.chance == 0u32 ==> out@ == genome@.take(out@.len() as int),
            decreases n - out@.len(),
        {
            let k = out.len();
            let gene = genome.genes[k];
            if rng.flip(self.chance) {
                out.push(rng.perturb(gene, self.strength));
            } else {
                out.push(gene);
                proof {
                    if self.chance == 0u32 {
                        assert(out@ =~= genome@.take(out@.len() as int));
                    }
                }
            }
        }
        proof {
            if self.chance == 0u32 {
                assert(out@ =~= genome@);
            }
        }
        genome.genes = out;
    }
}

/// The single-generation driver: selection, crossover and mutation wired
/// together. It computes no fitness and decodes no network; the caller
/// scores the genomes it returns and feeds the next population back in.
pub struct GeneticAlgorithm<S, C, M> {
    selection: S,
    crossover: C,
    mutation: M,
}

impl<S: SelectionMethod, C: CrossoverMethod, M: MutationMethod> GeneticAlgorithm<S, C, M> {
    /// A driver from its three strategies.
    pub fn new(selection: S, crossover: C, mutation: M) -> GeneticAlgorithm<S, C, M> {
        GeneticAlgorithm { selection, crossover, mutation }
    }

    /// One generation: for each output slot, select two parents, cross
    /// their genomes, mutate the child. The new genome sequence has exactly
    /// the population's cardinality, and every child genome keeps the
    /// population's common genome length. The population must be non-empty
    /// and share one topology's genome length; both violations are caller
    /// bugs and stay excluded.
    pub fn evolve<R: RandomSource, I: Individual>(
        &self,
        rng: &mut R,
        population: &Vec<I>,
    ) -> (next: Vec<Genome>)
        requires
            population@.len() > 0,
            forall|i: int| 0 <= i < population@.len()
                ==> (#[trigger] population@[i].spec_genome()).len()
                    == population@[0].spec_genome().len(),
        ensures
            next@.len() == population@.len(),
            forall|k: int| 0 <= k < next@.len()
                ==> (#[trigger] next@[k])@.len() == population@[0].spec_genome().len(),
    {
        let target = population.len();
        let mut next: Vec<Genome> = Vec::new();
        while next.len() < target
            invariant
                target == population@.len(),
                target > 0,
                forall|i: int| 0 <= i < population@.len()
                    ==> (#[trigger] population@[i].spec_genome()).len()
                        == population@[0].spec_genome().len(),
                next@.len() <= target,
                forall|k: int| 0 <= k < next@.len()
                    ==> (#[trigger] next@[k])@.len() == population@[0].spec_genome().len(),
            decreases target - next@.len(),
        {
            let parent_a = self.selection.select(rng, population);
            let parent_b = self.selection.select(rng, population);
            let genome_a = parent_a.genome();
            let genome_b = parent_b.genome();
            proof {
                let i = choose|i: int| 0 <= i < population@.len() && *parent_a == population@[i];
                let j = choose|j: int| 0 <= j < population@.len() && *parent_b == population@[j];
                assert(genome_a@.len() == population@[i].spec_genome().len());
                assert(genome_b@.len() == population@[j].spec_genome().len());
            }
            let mut child = self.crossover.crossover(rng, genome_a, genome_b);
            self.mutation.mutate(rng, &mut child);
            next.push(child);
        }
        next
    }
}

} // verus!

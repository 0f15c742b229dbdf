//! Population and evolution loop.
use vstd::prelude::*;
use rand::rngs::StdRng;
use crate::ga::chromosome::{ActivityInfo, Chromosome, UNEVALUATED, balanced_choice, build_process_times, copy_strings, process_table, time_of};
use crate::ga::operators::{GeneticOperators, tournament_selection};
use crate::models::resource::Resource;
use crate::scheduler::order::{is_stable_order, stable_order};

verus! {

/// Scale of ratios: 1_000_000 stands for 1.0.
pub const PPM: u64 = 1_000_000;

/// Parameters of the evolution; ratios are in parts per million.
#[derive(Debug, Clone, Copy)]
pub struct GaParams {
    pub population_size: usize,
    pub max_generations: usize,
    /// Share of the population copied unchanged into the next generation.
    pub elite_ratio: u64,
    pub tournament_size: usize,
    /// Window of generations over which convergence is judged.
    pub convergence_generations: usize,
    /// Relative change below which the window counts as converged.
    pub convergence_threshold: u64,
}

impl Default for GaParams {
    fn default() -> (r: Self)
        ensures
            r.population_size == 100,
            r.max_generations == 500,
            r.elite_ratio == 100_000,
            r.tournament_size == 3,
            r.convergence_generations == 50,
            r.convergence_threshold == 1_000,
    {
        GaParams {
            population_size: 100,
            max_generations: 500,
            elite_ratio: 100_000,
            tournament_size: 3,
            convergence_generations: 50,
            convergence_threshold: 1_000,
        }
    }
}

/// Fitness figures of one generation; the mean is rounded down.
#[derive(Debug, Clone, Copy, PartialEq, Eq)]
pub struct PopulationStats {
    pub generation: usize,
    pub best_fitness: i64,
    pub worst_fitness: i64,
    pub mean_fitness: i64,
}

/// Number of elites: the population size times the elite ratio, rounded down.
pub open spec fn elite_count(p: GaParams) -> int {
    (p.population_size as int * p.elite_ratio as int) / PPM as int
}

pub open spec fn abs(x: int) -> int {
    if x < 0 { -x } else { x }
}

/// Whether the last `window` entries of the history changed by less than
/// `threshold` parts per million of the first of them; a zero first entry
/// counts as converged.
pub open spec fn converged(history: Seq<i64>, window: int, threshold: int) -> bool {
    window > 0 && history.len() >= window && {
        let first = history[history.len() - window] as int;
        let last = history[history.len() - 1] as int;
        first == 0 || abs(first - last) * (PPM as int) < threshold * abs(first)
    }
}

/// The fitness of each individual, in order.
pub open spec fn fitness_keys(s: Seq<Chromosome>) -> Seq<i64> {
    s.map_values(|c: Chromosome| c.fitness)
}

/// The least of three numbers.
pub open spec fn min3(a: int, b: int, c: int) -> int {
    if a <= b && a <= c { a } else if b <= c { b } else { c }
}

/// The new generation begins with copies of the `e` fittest individuals of
/// the old one, ties in their old order.
pub open spec fn elites_kept(old_s: Seq<Chromosome>, new_s: Seq<Chromosome>, e: int) -> bool {
    exists|order: Seq<usize>| #[trigger] is_stable_order(fitness_keys(old_s), order)
        && forall|k: int| 0 <= k < e && k < new_s.len() ==> {
            &&& (#[trigger] new_s[k]).osv@ == old_s[order[k] as int].osv@
            &&& new_s[k].mav@ == old_s[order[k] as int].mav@
            &&& new_s[k].fitness == old_s[order[k] as int].fitness
        }
}

/// Some individual of the list has the least fitness of all.
pub open spec fn is_fittest(s: Seq<Chromosome>, i: int) -> bool {
    0 <= i < s.len() && forall|j: int| 0 <= j < s.len() ==> s[i].fitness <= #[trigger] s[j].fitness
}

/// All individuals are valid genomes for the activities.
pub open spec fn all_valid(s: Seq<Chromosome>, acts: Seq<ActivityInfo>) -> bool {
    forall|i: int| 0 <= i < s.len() ==> #[trigger] s[i].valid_for(acts)
}

/// A field-by-field copy of a genome.
fn copy_chromosome(c: &Chromosome) -> (r: Chromosome)
    ensures
        r.osv@ == c.osv@,
        r.mav@ == c.mav@,
        r.activity_index@.len() == c.activity_index@.len(),
        r.fitness == c.fitness,
{
    let mut index: Vec<(String, i32)> = Vec::new();
    let mut i: usize = 0;
    while i < c.activity_index.len()
        invariant
            i <= c.activity_index@.len(),
            index@.len() == i,
        decreases c.activity_index@.len() - i,
    {
        index.push((c.activity_index[i].0.clone(), c.activity_index[i].1));
        i += 1;
    }
    Chromosome { osv: copy_strings(&c.osv), mav: copy_strings(&c.mav), activity_index: index, fitness: c.fitness }
}

/// The individuals of the current generation and the history of the search.
#[derive(Debug)]
pub struct Population {
    pub individuals: Vec<Chromosome>,
    pub params: GaParams,
    pub operators: GeneticOperators,
    pub generation: usize,
    /// The fittest genome seen in any generation so far.
    pub best: Option<Chromosome>,
    /// Best fitness of each evolved generation.
    pub fitness_history: Vec<i64>,
}

impl Population {
    /// A first generation: half random genomes, a quarter load-balanced and
    /// the rest shortest-time; none when there are no activities.
    pub fn new(
        activities: &[ActivityInfo],
        resources: &[Resource],
        params: GaParams,
        operators: GeneticOperators,
        rng: &mut StdRng,
    ) -> (r: Self)
        requires
            activities@.len() <= u32::MAX,
        ensures
            all_valid(r.individuals@, activities@),
            activities@.len() > 0 ==> r.individuals@.len() == params.population_size,
            activities@.len() == 0 ==> r.individuals@.len() == 0,
            forall|k: int, i: int|
                params.population_size / 2 <= k < params.population_size / 2 + params.population_size / 4
                    && k < r.individuals@.len() && 0 <= i < activities@.len() && activities@[i].candidates@.len() > 0
                    ==> #[trigger] balanced_choice(activities@, resources@, r.individuals@[k].mav@, i),
            forall|k: int, i: int, c: int| #![trigger r.individuals@[k].mav@[i], activities@[i].candidates@[c]]
                params.population_size / 2 + params.population_size / 4 <= k < r.individuals@.len()
                    && 0 <= i < activities@.len() && 0 <= c < activities@[i].candidates@.len()
                    ==> time_of(process_table(activities@), activities@[i].activity_id@, r.individuals@[k].mav@[i]@)
                        <= time_of(process_table(activities@), activities@[i].activity_id@, activities@[i].candidates@[c]@),
            forall|k: int| 0 <= k < r.individuals@.len() ==> (#[trigger] r.individuals@[k]).fitness == UNEVALUATED,
            r.params == params,
            r.operators == operators,
            r.generation == 0,
            r.best is None,
            r.fitness_history@.len() == 0,
    {
        let mut individuals: Vec<Chromosome> = Vec::new();
        if activities.len() > 0 {
            let random_count = params.population_size / 2;
            let balanced_count = params.population_size / 4;
            proof {
                assert(params.population_size / 2 + params.population_size / 4 <= params.population_size) by (nonlinear_arith);
            }
            let head = random_count + balanced_count;
            let process_times = build_process_times(activities);
            let mut k: usize = 0;
            while k < params.population_size
                invariant
                    k <= params.population_size,
                    activities@.len() <= u32::MAX,
                    individuals@.len() == k,
                    all_valid(individuals@, activities@),
                    random_count == params.population_size / 2,
                    head == params.population_size / 2 + params.population_size / 4,
                    forall|k2: int, i: int|
                        random_count <= k2 < head && k2 < individuals@.len() && 0 <= i < activities@.len()
                            && activities@[i].candidates@.len() > 0
                            ==> #[trigger] balanced_choice(activities@, resources@, individuals@[k2].mav@, i),
                    process_times@ == process_table(activities@),
                    forall|k2: int, i: int, c: int| #![trigger individuals@[k2].mav@[i], activities@[i].candidates@[c]]
                        head <= k2 < individuals@.len() && 0 <= i < activities@.len() && 0 <= c < activities@[i].candidates@.len()
                            ==> time_of(process_times@, activities@[i].activity_id@, individuals@[k2].mav@[i]@)
                                <= time_of(process_times@, activities@[i].activity_id@, activities@[i].candidates@[c]@),
                    forall|k2: int| 0 <= k2 < individuals@.len() ==> (#[trigger] individuals@[k2]).fitness == UNEVALUATED,
                decreases params.population_size - k,
            {
                let c = if k < random_count {
                    Chromosome::random(activities, rng)
                } else if k < head {
                    Chromosome::with_load_balancing(activities, resources, rng)
                } else {
                    Chromosome::with_shortest_time(activities, &process_times, rng)
                };
                individuals.push(c);
                proof {
                    assert forall|k2: int| 0 <= k2 < individuals@.len() implies (#[trigger] individuals@[k2]).fitness == UNEVALUATED by {
                        if k2 < k {
                            assert(individuals@[k2] == individuals@.drop_last()[k2]);
                        }
                    }
                    assert forall|k2: int, i: int, c2: int| #![trigger individuals@[k2].mav@[i], activities@[i].candidates@[c2]]
                        head <= k2 < individuals@.len() && 0 <= i < activities@.len() && 0 <= c2 < activities@[i].candidates@.len()
                        implies time_of(process_times@, activities@[i].activity_id@, individuals@[k2].mav@[i]@)
                            <= time_of(process_times@, activities@[i].activity_id@, activities@[i].candidates@[c2]@) by {
                        if k2 < k {
                            assert(individuals@[k2] == individuals@.drop_last()[k2]);
                        }
                    }
                    assert forall|k2: int, i: int|
                        random_count <= k2 < head && k2 < individuals@.len() && 0 <= i < activities@.len()
                            && activities@[i].candidates@.len() > 0
                        implies #[trigger] balanced_choice(activities@, resources@, individuals@[k2].mav@, i) by {
                        if k2 < k {
                            assert(individuals@[k2] == individuals@.drop_last()[k2]);
                        }
                    }
                    assert forall|i: int| 0 <= i < individuals@.len() implies #[trigger] individuals@[i].valid_for(activities@) by {
                        if i < k {
                            assert(individuals@[i] == individuals@.drop_last()[i]);
                        }
                    }
                }
                k += 1;
            }
        }
        Population { individuals, params, operators, generation: 0, best: None, fitness_history: Vec::new() }
    }

    /// One generation: sort by fitness, record the best, keep the elites,
    /// then fill up with mutated children of tournament winners.
    pub fn evolve(&mut self, activities: &[ActivityInfo], rng: &mut StdRng)
        requires
            all_valid(old(self).individuals@, activities@),
            old(self).generation < usize::MAX,
        ensures
            all_valid(final(self).individuals@, activities@),
            final(self).generation == old(self).generation + 1,
            final(self).params == old(self).params,
            final(self).operators == old(self).operators,
            old(self).individuals@.len() == 0 ==> final(self).individuals@.len() == 0
                && final(self).best == old(self).best
                && final(self).fitness_history == old(self).fitness_history,
            old(self).individuals@.len() > 0 ==> final(self).individuals@.len() == old(self).params.population_size,
            evolved(*old(self), *final(self)),
            old(self).individuals@.len() > 0 ==> {
                let e = min3(elite_count(old(self).params), old(self).individuals@.len() as int, old(self).params.population_size as int);
                &&& elites_kept(old(self).individuals@, final(self).individuals@, e)
                &&& forall|k: int| e <= k < final(self).individuals@.len() ==> (#[trigger] final(self).individuals@[k]).fitness == UNEVALUATED
            },
    {
        let ghost old_ind = self.individuals@;
        let n = self.individuals.len();
        if n == 0 {
            self.generation = self.generation + 1;
            return;
        }
        let mut keys: Vec<i64> = Vec::new();
        let mut i: usize = 0;
        while i < n
            invariant
                i <= n,
                n == self.individuals@.len(),
                keys@.len() == i,
                forall|k: int| 0 <= k < i ==> keys@[k] == self.individuals@[k].fitness,
            decreases n - i,
        {
            keys.push(self.individuals[i].fitness);
            i += 1;
        }
        let order = stable_order(&keys);
        let mut sorted: Vec<Chromosome> = Vec::new();
        let mut i: usize = 0;
        while i < n
            invariant
                i <= n,
                n == self.individuals@.len(),
                self.individuals@ == old_ind,
                is_stable_order(keys@, order@),
                keys@.len() == n,
                forall|k: int| 0 <= k < n ==> keys@[k] == old_ind[k].fitness,
                sorted@.len() == i,
                forall|k: int| 0 <= k < i ==> (#[trigger] sorted@[k]).osv@ == old_ind[order@[k] as int].osv@
                    && sorted@[k].mav@ == old_ind[order@[k] as int].mav@
                    && sorted@[k].fitness == old_ind[order@[k] as int].fitness,
            decreases n - i,
        {
            let c = copy_chromosome(&self.individuals[order[i]]);
            sorted.push(c);
            i += 1;
        }
        let ghost m = order@[0] as int;
        proof {
            assert forall|j: int| 0 <= j < old_ind.len() implies old_ind[m].fitness <= #[trigger] old_ind[j].fitness by {
                if j != m {
                    assert(crate::scheduler::order::listed(order@, j));
                    let q = choose|q: int| 0 <= q < order@.len() && order@[q] == j;
                    assert(keys@[order@[0] as int] <= keys@[order@[q] as int]);
                }
            }
            assert(is_fittest(old_ind, m));
            assert(sorted@[0].osv@ == old_ind[m].osv@);
            assert forall|k: int| 0 <= k < sorted@.len() implies #[trigger] sorted@[k].valid_for(activities@) by {
                assert(old_ind[order@[k] as int].valid_for(activities@));
            }
        }
        let replace_best = match &self.best {
            None => true,
            Some(b) => sorted[0].fitness < b.fitness,
        };
        if replace_best {
            self.best = Some(copy_chromosome(&sorted[0]));
        }
        self.fitness_history.push(sorted[0].fitness);
        let size = self.params.population_size;
        let ratio = self.params.elite_ratio;
        let elites: usize = if ratio >= PPM {
            n
        } else {
            proof {
                assert((size as int) * (ratio as int) <= (usize::MAX as int) * 1_000_000) by (nonlinear_arith)
                    requires size as int <= usize::MAX as int, ratio < 1_000_000, size >= 0, ratio >= 0;
            }
            let e: u128 = (size as u128 * ratio as u128) / (PPM as u128);
            proof {
                let si = size as int;
                let ri = ratio as int;
                assert(si * ri <= si * 1_000_000) by (nonlinear_arith)
                    requires ri < 1_000_000, si >= 0;
                assert((si * ri) / 1_000_000 <= si) by (nonlinear_arith)
                    requires si * ri <= si * 1_000_000, si >= 0, ri >= 0;
                assert(e as int == (si * ri) / 1_000_000);
            }
            if e >= n as u128 {
                n
            } else {
                e as usize
            }
        };
        proof {
            if size == 0 {
                assert((0 * ratio as int) / 1_000_000 == 0);
            }
            if elite_count(self.params) >= 1 {
                if ratio < PPM {
                    assert(elite_count(self.params) == (size as int * ratio as int) / 1_000_000);
                }
                assert(elites >= 1);
            }
        }
        proof {
            assert(keys@ =~= fitness_keys(old_ind));
        }
        let mut next: Vec<Chromosome> = Vec::new();
        let mut k: usize = 0;
        while k < elites && k < size
            invariant
                k <= elites <= n,
                k <= size,
                n == sorted@.len(),
                forall|q: int| 0 <= q < n ==> (#[trigger] sorted@[q]).osv@ == old_ind[order@[q] as int].osv@
                    && sorted@[q].mav@ == old_ind[order@[q] as int].mav@ && sorted@[q].fitness == old_ind[order@[q] as int].fitness,
                is_stable_order(fitness_keys(old_ind), order@),
                n > 0,
                sorted@[0].osv@ == old_ind[m].osv@,
                next@.len() == k,
                all_valid(sorted@, activities@),
                all_valid(next@, activities@),
                k > 0 ==> next@[0].osv@ == sorted@[0].osv@,
                forall|i: int| 0 <= i < k ==> (#[trigger] next@[i]).osv@ == sorted@[i].osv@ && next@[i].mav@ == sorted@[i].mav@
                    && next@[i].fitness == sorted@[i].fitness,
            decreases elites - k,
        {
            let c = copy_chromosome(&sorted[k]);
            proof {
                assert(sorted@[k as int].valid_for(activities@));
            }
            next.push(c);
            proof {
                assert forall|i: int| 0 <= i < next@.len() implies #[trigger] next@[i].valid_for(activities@) by {
                    if i < k {
                        assert(next@[i] == next@.drop_last()[i]);
                    }
                }
                assert forall|i: int| 0 <= i < k + 1 implies (#[trigger] next@[i]).osv@ == sorted@[i].osv@ && next@[i].mav@ == sorted@[i].mav@
                    && next@[i].fitness == sorted@[i].fitness by {
                    if i < k {
                        assert(next@[i] == next@.drop_last()[i]);
                    }
                }
            }
            k += 1;
        }
        let ghost e = k as int;
        while next.len() < size
            invariant
                next@.len() <= size,
                n == sorted@.len(),
                n > 0,
                forall|q: int| 0 <= q < n ==> (#[trigger] sorted@[q]).osv@ == old_ind[order@[q] as int].osv@
                    && sorted@[q].mav@ == old_ind[order@[q] as int].mav@ && sorted@[q].fitness == old_ind[order@[q] as int].fitness,
                is_stable_order(fitness_keys(old_ind), order@),
                sorted@[0].osv@ == old_ind[m].osv@,
                all_valid(sorted@, activities@),
                all_valid(next@, activities@),
                elites >= 1 && size >= 1 ==> next@.len() >= 1 && next@[0].osv@ == sorted@[0].osv@,
                0 <= e <= next@.len(),
                forall|i: int| 0 <= i < e ==> (#[trigger] next@[i]).osv@ == sorted@[i].osv@ && next@[i].mav@ == sorted@[i].mav@
                    && next@[i].fitness == sorted@[i].fitness,
                forall|i: int| e <= i < next@.len() ==> (#[trigger] next@[i]).fitness == UNEVALUATED,
            decreases size - next@.len(),
        {
            let parent1 = tournament_selection(sorted.as_slice(), self.params.tournament_size, rng);
            let parent2 = tournament_selection(sorted.as_slice(), self.params.tournament_size, rng);
            proof {
                let i1 = choose|i: int| 0 <= i < sorted@.len() && sorted@[i] == *parent1;
                let i2 = choose|i: int| 0 <= i < sorted@.len() && sorted@[i] == *parent2;
                assert(sorted@[i1].valid_for(activities@));
                assert(sorted@[i2].valid_for(activities@));
            }
            let (mut child1, mut child2) = if n >= 2 {
                self.operators.crossover(parent1, parent2, activities, rng)
            } else {
                (copy_chromosome(parent1), copy_chromosome(parent2))
            };
            self.operators.mutate(&mut child1, activities, rng);
            self.operators.mutate(&mut child2, activities, rng);
            let ghost before = next@;
            next.push(child1);
            if next.len() < size {
                next.push(child2);
            }
            proof {
                assert forall|i: int| 0 <= i < before.len() implies #[trigger] next@[i] == before[i] by {}
                assert(child1.fitness == UNEVALUATED && child2.fitness == UNEVALUATED);
                assert forall|i: int| 0 <= i < next@.len() implies #[trigger] next@[i].valid_for(activities@) by {
                    if i < before.len() {
                        assert(next@[i] == before[i]);
                    }
                }
                assert forall|i: int| 0 <= i < e implies (#[trigger] next@[i]).osv@ == sorted@[i].osv@ && next@[i].mav@ == sorted@[i].mav@
                    && next@[i].fitness == sorted@[i].fitness by {
                    assert(next@[i] == before[i]);
                }
                assert forall|i: int| e <= i < next@.len() implies (#[trigger] next@[i]).fitness == UNEVALUATED by {
                    if i < before.len() {
                        assert(next@[i] == before[i]);
                    }
                }
                if before.len() > 0 {
                    assert(next@[0] == before[0]);
                }
            }
        }
        proof {
            if elite_count(self.params) >= 1 {
                assert(next@[0].osv@ == old_ind[m].osv@);
            }
            let ec = elite_count(self.params);
            if ratio >= PPM {
                assert((size as int * ratio as int) / 1_000_000 >= size as int) by (nonlinear_arith)
                    requires ratio as int >= 1_000_000, size >= 0;
                assert(ec >= size as int);
            }
            assert(e == min3(ec, n as int, size as int));
            assert(elites_kept(old_ind, next@, e)) by {
                assert(is_stable_order(fitness_keys(old_ind), order@));
            }
        }
        self.individuals = next;
        self.generation = self.generation + 1;
        proof {
            if elite_count(self.params) >= 1 {
                assert(self.individuals@[0].osv@ == old_ind[m].osv@);
            }
            assert(is_fittest(old(self).individuals@, m));
        }
    }

    /// Whether the best fitness changed by less than the threshold over the
    /// last window of generations.
    pub fn is_converged(&self) -> (r: bool)
        ensures
            r == converged(self.fitness_history@, self.params.convergence_generations as int, self.params.convergence_threshold as int),
    {
        let w = self.params.convergence_generations;
        let len = self.fitness_history.len();
        if w == 0 || len < w {
            return false;
        }
        let first = self.fitness_history[len - w] as i128;
        let last = self.fitness_history[len - 1] as i128;
        if first == 0 {
            return true;
        }
        let diff = if first > last { first - last } else { last - first };
        let mag = if first < 0 { -first } else { first };
        let threshold = self.params.convergence_threshold as i128;
        proof {
            assert(diff * 1_000_000 <= 0x1_0000_0000_0000_0000i128 * 1_000_000) by (nonlinear_arith)
                requires 0 <= diff <= 0x1_0000_0000_0000_0000i128;
            assert(threshold * mag <= 0xffff_ffff_ffff_ffffint * 0x8000_0000_0000_0000int) by (nonlinear_arith)
                requires 0 <= threshold <= 0xffff_ffff_ffff_ffffint, 0 <= mag <= 0x8000_0000_0000_0000int;
        }
        diff * 1_000_000 < threshold * mag
    }

    /// Fitness figures of the current generation; all zero when it is empty.
    pub fn statistics(&self) -> (r: PopulationStats)
        ensures
            self.individuals@.len() == 0 ==> r == (PopulationStats { generation: 0, best_fitness: 0, worst_fitness: 0, mean_fitness: 0 }),
            self.individuals@.len() > 0 ==> {
                &&& r.generation == self.generation
                &&& exists|i: int| 0 <= i < self.individuals@.len() && self.individuals@[i].fitness == r.best_fitness
                &&& exists|i: int| 0 <= i < self.individuals@.len() && self.individuals@[i].fitness == r.worst_fitness
                &&& forall|i: int| 0 <= i < self.individuals@.len()
                    ==> r.best_fitness <= #[trigger] self.individuals@[i].fitness <= r.worst_fitness
                &&& r.mean_fitness == toward_zero(fitness_sum(self.individuals@), self.individuals@.len() as int)
            },
    {
        let n = self.individuals.len();
        if n == 0 {
            return PopulationStats { generation: 0, best_fitness: 0, worst_fitness: 0, mean_fitness: 0 };
        }
        let mut best = self.individuals[0].fitness;
        let mut worst = self.individuals[0].fitness;
        let mut sum: i128 = 0;
        let mut i: usize = 0;
        while i < n
            invariant
                i <= n,
                n == self.individuals@.len(),
                n > 0,
                exists|k: int| 0 <= k < n && self.individuals@[k].fitness == best,
                exists|k: int| 0 <= k < n && self.individuals@[k].fitness == worst,
                forall|k: int| 0 <= k < i ==> best <= #[trigger] self.individuals@[k].fitness <= worst,
                sum == fitness_sum(self.individuals@.subrange(0, i as int)),
                i64::MIN as int * i <= sum <= i64::MAX as int * i,
            decreases n - i,
        {
            let f = self.individuals[i].fitness;
            proof {
                assert(self.individuals@.subrange(0, i + 1).drop_last() =~= self.individuals@.subrange(0, i as int));
                assert(i64::MIN as int * i + i64::MIN as int == i64::MIN as int * (i + 1)) by (nonlinear_arith);
                assert(i64::MAX as int * i + i64::MAX as int == i64::MAX as int * (i + 1)) by (nonlinear_arith);
                assert(i64::MAX as int * (i + 1) <= i64::MAX as int * 0x1_0000_0000_0000_0000int) by (nonlinear_arith)
                    requires i + 1 <= 0x1_0000_0000_0000_0000int;
                assert(i64::MIN as int * (i + 1) >= i64::MIN as int * 0x1_0000_0000_0000_0000int) by (nonlinear_arith)
                    requires i + 1 <= 0x1_0000_0000_0000_0000int;
            }
            if f < best {
                best = f;
            }
            if f > worst {
                worst = f;
            }
            sum = sum + f as i128;
            i += 1;
        }
        proof {
            assert(self.individuals@.subrange(0, n as int) =~= self.individuals@);
            assert(i64::MIN as int * n <= sum <= i64::MAX as int * n);
        }
        let ghost ni = n as int;
        let ghost si = sum as int;
        proof {
            assert(i64::MIN as int <= si / ni <= i64::MAX as int) by (nonlinear_arith)
                requires i64::MIN as int * ni <= si <= i64::MAX as int * ni, ni > 0;
        }
        let mean = if sum >= 0 {
            (sum / n as i128) as i64
        } else {
            proof {
                assert(0 <= (-si) / ni <= 0x8000_0000_0000_0000int) by (nonlinear_arith)
                    requires i64::MIN as int * ni <= si < 0, ni > 0;
            }
            (-((-sum) / n as i128)) as i64
        };
        PopulationStats { generation: self.generation, best_fitness: best, worst_fitness: worst, mean_fitness: mean }
    }

    /// The fittest genome seen so far.
    pub fn get_best(&self) -> (r: Option<&Chromosome>)
        ensures
            r is None <==> self.best is None,
            r matches Some(b) ==> self.best == Some(*b),
    {
        match &self.best {
            Some(b) => Some(b),
            None => None,
        }
    }
}

/// Integer division rounding toward zero.
pub open spec fn toward_zero(a: int, b: int) -> int {
    if a >= 0 { a / b } else { -((-a) / b) }
}

/// Sum of the fitnesses of a list of genomes.
pub open spec fn fitness_sum(s: Seq<Chromosome>) -> int
    decreases s.len(),
{
    if s.len() == 0 {
        0
    } else {
        fitness_sum(s.drop_last()) + s.last().fitness
    }
}

/// Elitism: the fittest genome of a generation comes through `evolve`
/// unchanged in its OSV whenever the elite share rounds to at least one.
pub proof fn elitism_keeps_fittest(before: Population, after: Population, acts: Seq<ActivityInfo>)
    requires
        before.individuals@.len() > 0,
        elite_count(before.params) >= 1,
        evolved(before, after),
    ensures
        exists|m: int| #[trigger] is_fittest(before.individuals@, m) && exists|k: int|
            0 <= k < after.individuals@.len() && #[trigger] after.individuals@[k].osv@ == before.individuals@[m].osv@,
{
}

/// Monotone best: across `evolve` the best fitness seen never grows, and
/// once some generation was evolved a best genome exists.
pub proof fn best_never_worsens(before: Population, after: Population)
    requires
        before.individuals@.len() > 0,
        evolved(before, after),
    ensures
        after.best is Some,
        before.best matches Some(b) ==> after.best->0.fitness <= b.fitness,
{
}

/// What `evolve` guarantees of a population with individuals.
pub open spec fn evolved(before: Population, after: Population) -> bool {
    before.individuals@.len() > 0 ==> exists|m: int| #[trigger] is_fittest(before.individuals@, m)
        && after.fitness_history@ == before.fitness_history@.push(before.individuals@[m].fitness)
        && after.best is Some
        && (if before.best is Some && before.best->0.fitness <= before.individuals@[m].fitness {
            after.best == before.best
        } else {
            after.best->0.fitness == before.individuals@[m].fitness
                && after.best->0.osv@ == before.individuals@[m].osv@
        })
        && (elite_count(before.params) >= 1 ==> exists|k: int|
            0 <= k < after.individuals@.len() && #[trigger] after.individuals@[k].osv@ == before.individuals@[m].osv@)
}


} // verus!

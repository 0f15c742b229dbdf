//! Genetic operators: tournament selection, crossover and mutation.
use vstd::prelude::*;
use rand::rngs::StdRng;
use crate::ga::chromosome::{
    ActivityInfo, Chromosome, UNEVALUATED, canonical_index, contains_text, copy_strings,
    mav_fits, task_ids,
};
use crate::ga::random::{views, draw_below, choose_strings, choose_string};

verus! {

broadcast use vstd::seq_lib::group_to_multiset_ensures, vstd::multiset::group_multiset_properties,
    vstd::seq_lib::lemma_multiset_commutative,
    vstd::seq::Seq::lemma_filter_push;

/// Crossover variants.
#[derive(Debug, Clone, Copy, PartialEq, Eq)]
pub enum CrossoverType {
    /// Precedence-preserving order crossover.
    POX,
    /// Linear order crossover.
    LOX,
    /// Job-based order crossover; here the same as POX.
    JOX,
}

/// OSV mutation variants.
#[derive(Debug, Clone, Copy, PartialEq, Eq)]
pub enum MutationType {
    /// Exchange two positions.
    Swap,
    /// Move one entry to another position.
    Insert,
    /// Reverse a segment.
    Invert,
}

/// The operators a population evolves with.
#[derive(Debug, Clone, Copy)]
pub struct GeneticOperators {
    pub crossover_type: CrossoverType,
    pub mutation_type: MutationType,
}

impl Default for GeneticOperators {
    fn default() -> (r: Self)
        ensures
            r.crossover_type == CrossoverType::POX,
            r.mutation_type == MutationType::Swap,
    {
        GeneticOperators { crossover_type: CrossoverType::POX, mutation_type: MutationType::Swap }
    }
}

/// Membership in a set of task ids.
pub open spec fn in_set(sel: Seq<Seq<char>>) -> spec_fn(Seq<char>) -> bool {
    |x: Seq<char>| sel.contains(x)
}

/// Non-membership in a set of task ids.
pub open spec fn out_of_set(sel: Seq<Seq<char>>) -> spec_fn(Seq<char>) -> bool {
    |x: Seq<char>| !sel.contains(x)
}

proof fn lemma_filter_count(s: Seq<Seq<char>>, f: spec_fn(Seq<char>) -> bool, x: Seq<char>)
    ensures
        s.filter(f).to_multiset().count(x) == if f(x) { s.to_multiset().count(x) } else { 0 },
    decreases s.len(),
{
    if s.len() > 0 {
        let p = s.drop_last();
        lemma_filter_count(p, f, x);
        assert(s =~= p.push(s.last()));
        assert(p.push(s.last()).filter(f) == if f(s.last()) { p.filter(f).push(s.last()) } else { p.filter(f) });
    }
}

/// A sequence's count of `x` is that of its members in the set plus that of
/// those outside it.
proof fn lemma_split_count(s: Seq<Seq<char>>, sel: Seq<Seq<char>>, x: Seq<char>)
    ensures
        s.to_multiset().count(x) == s.filter(in_set(sel)).to_multiset().count(x)
            + s.filter(out_of_set(sel)).to_multiset().count(x),
{
    lemma_filter_count(s, in_set(sel), x);
    lemma_filter_count(s, out_of_set(sel), x);
}

proof fn lemma_filter_len_same(a: Seq<Seq<char>>, b: Seq<Seq<char>>, f: spec_fn(Seq<char>) -> bool)
    requires
        a.to_multiset() == b.to_multiset(),
    ensures
        a.filter(f).len() == b.filter(f).len(),
{
    assert forall|x: Seq<char>| a.filter(f).to_multiset().count(x) == b.filter(f).to_multiset().count(x) by {
        lemma_filter_count(a, f, x);
        lemma_filter_count(b, f, x);
    }
    assert(a.filter(f).to_multiset() =~= b.filter(f).to_multiset());
    assert(a.filter(f).to_multiset().len() == a.filter(f).len());
    assert(b.filter(f).to_multiset().len() == b.filter(f).len());
}

proof fn lemma_views_push(s: Seq<String>, x: String)
    ensures
        views(s.push(x)) == views(s).push(x@),
{
    assert(views(s.push(x)) =~= views(s).push(x@));
}

proof fn lemma_views_prefix(s: Seq<String>, i: int)
    requires
        0 <= i < s.len(),
    ensures
        views(s.subrange(0, i + 1)) == views(s.subrange(0, i)).push(s[i]@),
{
    assert(views(s.subrange(0, i + 1)) =~= views(s.subrange(0, i)).push(s[i]@));
}

/// The entries of `v` outside the set, in order.
fn outside_entries(v: &Vec<String>, selected: &Vec<String>) -> (r: Vec<String>)
    ensures
        views(r@) == views(v@).filter(out_of_set(views(selected@))),
{
    let ghost out = out_of_set(views(selected@));
    let mut r: Vec<String> = Vec::new();
    let mut j: usize = 0;
    while j < v.len()
        invariant
            j <= v@.len(),
            out == out_of_set(views(selected@)),
            views(r@) == views(v@.subrange(0, j as int)).filter(out),
        decreases v@.len() - j,
    {
        proof {
            lemma_views_prefix(v@, j as int);
        }
        if !contains_text(selected, &v[j]) {
            proof {
                lemma_views_push(r@, v@[j as int]);
            }
            r.push(v[j].clone());
        }
        j += 1;
    }
    proof {
        assert(v@.subrange(0, j as int) =~= v@);
    }
    r
}

/// The POX child of two task-id sequences for a set of task ids: an entry
/// of `p1` in the set stays in place; the `n`-th entry of `p1` outside the
/// set is replaced by the `n`-th entry of `p2` outside the set.
pub open spec fn pox_child(p1: Seq<Seq<char>>, p2: Seq<Seq<char>>, sel: Seq<Seq<char>>) -> Seq<Seq<char>> {
    Seq::new(
        p1.len(),
        |i: int|
            if sel.contains(p1[i]) {
                p1[i]
            } else {
                p2.filter(out_of_set(sel))[p1.subrange(0, i).filter(out_of_set(sel)).len() as int]
            },
    )
}

/// The two children are the POX children of the parents for the set.
pub open spec fn pox_pair(p1: Seq<String>, p2: Seq<String>, c1: Seq<String>, c2: Seq<String>, sel: Seq<Seq<char>>) -> bool {
    views(c1) == pox_child(views(p1), views(p2), sel) && views(c2) == pox_child(views(p2), views(p1), sel)
}

/// The two children are the LOX children of the parents for cut points `a <= b`.
pub open spec fn lox_cut(p1: Seq<String>, p2: Seq<String>, c1: Seq<String>, c2: Seq<String>, a: int, b: int) -> bool {
    &&& 0 <= a <= b < p1.len()
    &&& views(c1) == lox_child(views(p1), views(p2), a, b)
    &&& views(c2) == lox_child(views(p2), views(p1), a, b)
}

/// POX child: the entries of `p1` in the set stay in place, the other
/// positions take the entries of `p2` outside the set, in order.
fn pox_build_child(p1: &Vec<String>, p2: &Vec<String>, selected: &Vec<String>) -> (r: Vec<String>)
    requires
        views(p1@).to_multiset() == views(p2@).to_multiset(),
    ensures
        r@.len() == p1@.len(),
        views(r@).to_multiset() == views(p1@).to_multiset(),
        views(r@) == pox_child(views(p1@), views(p2@), views(selected@)),
{
    let ghost sel = views(selected@);
    let ghost inn = in_set(sel);
    let ghost out = out_of_set(sel);
    let fill = outside_entries(p2, selected);
    proof {
        lemma_filter_len_same(views(p1@), views(p2@), out);
    }
    let mut r: Vec<String> = Vec::new();
    let mut t: usize = 0;
    let mut i: usize = 0;
    while i < p1.len()
        invariant
            i <= p1@.len(),
            r@.len() == i,
            sel == views(selected@),
            inn == in_set(sel),
            out == out_of_set(sel),
            views(fill@) == views(p2@).filter(out),
            views(fill@).len() == views(p1@).filter(out).len(),
            t == views(p1@.subrange(0, i as int)).filter(out).len(),
            t <= fill@.len(),
            views(r@).filter(inn) == views(p1@.subrange(0, i as int)).filter(inn),
            views(r@).filter(out) == views(fill@).subrange(0, t as int),
            forall|k: int| 0 <= k < i ==> #[trigger] views(r@)[k] == pox_child(views(p1@), views(p2@), sel)[k],
        decreases p1@.len() - i,
    {
        proof {
            lemma_views_prefix(p1@, i as int);
            let pre = views(p1@.subrange(0, i + 1));
            assert(views(p1@) =~= pre + views(p1@.subrange(i + 1, p1@.len() as int)));
            assert(views(p1@).filter(out) == pre.filter(out) + views(p1@.subrange(i + 1, p1@.len() as int)).filter(out));
        }
        proof {
            assert(views(p1@.subrange(0, i as int)) =~= views(p1@).subrange(0, i as int));
        }
        if contains_text(selected, &p1[i]) {
            proof {
                lemma_views_push(r@, p1@[i as int]);
            }
            r.push(p1[i].clone());
            proof {
                assert(views(p1@)[i as int] == p1@[i as int]@);
                assert(views(r@)[i as int] == pox_child(views(p1@), views(p2@), sel)[i as int]);
            }
        } else {
            let x = if t < fill.len() {
                fill[t].clone()
            } else {
                p1[i].clone()
            };
            proof {
                lemma_views_push(r@, x);
                assert(views(fill@)[t as int] == x@);
                assert(views(fill@).contains(x@));
                assert(!sel.contains(x@)) by {
                    let k = t as int;
                    assert(views(p2@).filter(out)[k] == x@);
                    vstd::seq::Seq::lemma_filter_pred(views(p2@), out, k);
                }
                assert(views(fill@).subrange(0, t + 1) =~= views(fill@).subrange(0, t as int).push(x@));
            }
            r.push(x);
            proof {
                assert(views(p1@)[i as int] == p1@[i as int]@);
                assert(views(r@)[i as int] == pox_child(views(p1@), views(p2@), sel)[i as int]);
            }
            t += 1;
        }
        i += 1;
    }
    proof {
        assert(p1@.subrange(0, i as int) =~= p1@);
        assert(views(fill@).subrange(0, t as int) =~= views(fill@));
        assert forall|x: Seq<char>| views(r@).to_multiset().count(x) == views(p1@).to_multiset().count(x) by {
            lemma_split_count(views(r@), sel, x);
            lemma_split_count(views(p1@), sel, x);
            lemma_split_count(views(p2@), sel, x);
        }
        assert(views(r@).to_multiset() =~= views(p1@).to_multiset());
        assert(views(r@) =~= pox_child(views(p1@), views(p2@), sel));
    }
    r
}

/// The distinct task ids of the activities, in canonical order.
fn distinct_task_ids(activities: &[ActivityInfo]) -> (r: Vec<String>)
    ensures
        forall|k: int| 0 <= k < r@.len() ==> task_ids(activities@).contains(#[trigger] r@[k]@),
        activities@.len() > 0 ==> r@.len() > 0,
{
    let mut r: Vec<String> = Vec::new();
    let mut i: usize = 0;
    while i < activities.len()
        invariant
            i <= activities@.len(),
            forall|k: int| 0 <= k < r@.len() ==> task_ids(activities@).contains(#[trigger] r@[k]@),
            i > 0 ==> r@.len() > 0,
        decreases activities@.len() - i,
    {
        if !contains_text(&r, &activities[i].task_id) {
            let ghost old_r = r@;
            r.push(activities[i].task_id.clone());
            proof {
                assert(task_ids(activities@)[i as int] == activities@[i as int].task_id@);
                assert forall|k: int| 0 <= k < r@.len() implies task_ids(activities@).contains(#[trigger] r@[k]@) by {
                    if k < old_r.len() {
                        assert(r@[k] == old_r[k]);
                    }
                }
            }
        }
        i += 1;
    }
    r
}

/// Position among `draws` of the first draw of least fitness.
pub open spec fn fittest_draw(population: Seq<Chromosome>, draws: Seq<usize>, d: int) -> bool {
    &&& 0 <= d < draws.len()
    &&& forall|e: int| 0 <= e < draws.len() ==> population[draws[d] as int].fitness <= #[trigger] population[draws[e] as int].fitness
    &&& forall|e: int| 0 <= e < d ==> population[draws[d] as int].fitness < #[trigger] population[draws[e] as int].fitness
}

/// The index of the fittest drawn individual, the earliest drawn on ties.
pub fn fittest_of(population: &[Chromosome], draws: &Vec<usize>) -> (r: usize)
    requires
        draws@.len() > 0,
        forall|e: int| 0 <= e < draws@.len() ==> #[trigger] draws@[e] < population@.len(),
    ensures
        exists|d: int| #[trigger] fittest_draw(population@, draws@, d) && r == draws@[d],
{
    let mut best: usize = 0;
    let mut e: usize = 1;
    while e < draws.len()
        invariant
            1 <= e <= draws@.len(),
            best < e,
            forall|x: int| 0 <= x < draws@.len() ==> #[trigger] draws@[x] < population@.len(),
            forall|x: int| 0 <= x < e ==> population@[draws@[best as int] as int].fitness <= #[trigger] population@[draws@[x] as int].fitness,
            forall|x: int| 0 <= x < best ==> population@[draws@[best as int] as int].fitness < #[trigger] population@[draws@[x] as int].fitness,
        decreases draws@.len() - e,
    {
        if population[draws[e]].fitness < population[draws[best]].fitness {
            best = e;
        }
        e += 1;
    }
    proof {
        assert(fittest_draw(population@, draws@, best as int));
    }
    draws[best]
}

/// Draw `k` individuals uniformly with replacement (`k` of 0 counts as 1)
/// and return the fittest of them, the earliest drawn on ties.
pub fn tournament_selection<'a>(population: &'a [Chromosome], tournament_size: usize, rng: &mut StdRng) -> (r: &'a Chromosome)
    requires
        population@.len() > 0,
    ensures
        exists|draws: Seq<usize>, d: int| #[trigger] fittest_draw(population@, draws, d)
            && draws.len() == (if tournament_size == 0 { 1 } else { tournament_size as int })
            && (forall|e: int| 0 <= e < draws.len() ==> #[trigger] draws[e] < population@.len())
            && *r == population@[draws[d] as int],
{
    let rounds = if tournament_size == 0 { 1 } else { tournament_size };
    let mut draws: Vec<usize> = Vec::new();
    while draws.len() < rounds
        invariant
            draws@.len() <= rounds,
            population@.len() > 0,
            forall|e: int| 0 <= e < draws@.len() ==> #[trigger] draws@[e] < population@.len(),
        decreases rounds - draws@.len(),
    {
        let idx = draw_below(rng, population.len());
        draws.push(idx);
    }
    let i = fittest_of(population, &draws);
    &population[i]
}

impl GeneticOperators {
    /// Two children of two valid parents, by the configured crossover.
    pub fn crossover(&self, parent1: &Chromosome, parent2: &Chromosome, activities: &[ActivityInfo], rng: &mut StdRng) -> (r: (Chromosome, Chromosome))
        requires
            parent1.valid_for(activities@),
            parent2.valid_for(activities@),
        ensures
            r.0.valid_for(activities@),
            r.1.valid_for(activities@),
            r.0.mav@ == parent1.mav@,
            r.1.mav@ == parent2.mav@,
            r.0.fitness == UNEVALUATED && r.1.fitness == UNEVALUATED,
            self.crossover_type != CrossoverType::LOX ==> exists|sel: Seq<Seq<char>>|
                #[trigger] pox_pair(parent1.osv@, parent2.osv@, r.0.osv@, r.1.osv@, sel)
                && (activities@.len() > 0 ==> sel.len() > 0)
                && forall|k: int| 0 <= k < sel.len() ==> task_ids(activities@).contains(#[trigger] sel[k]),
            self.crossover_type == CrossoverType::LOX && parent1.osv@.len() < 2
                ==> r.0.osv@ == parent1.osv@ && r.1.osv@ == parent2.osv@,
            self.crossover_type == CrossoverType::LOX && parent1.osv@.len() >= 2
                ==> exists|a: int, b: int| #[trigger] lox_cut(parent1.osv@, parent2.osv@, r.0.osv@, r.1.osv@, a, b),
    {
        match self.crossover_type {
            CrossoverType::POX => self.pox_crossover(parent1, parent2, activities, rng),
            CrossoverType::LOX => self.lox_crossover(parent1, parent2, activities, rng),
            CrossoverType::JOX => self.jox_crossover(parent1, parent2, activities, rng),
        }
    }

    /// Assemble a child from an OSV and a parent's MAV.
    fn child_of(osv: Vec<String>, parent: &Chromosome, activities: &[ActivityInfo]) -> (r: Chromosome)
        requires
            parent.valid_for(activities@),
            views(osv@).to_multiset() == task_ids(activities@).to_multiset(),
        ensures
            r.valid_for(activities@),
            r.osv == osv,
            r.mav@ == parent.mav@,
            r.fitness == UNEVALUATED,
    {
        proof {
            assert(views(osv@).to_multiset().len() == views(osv@).len());
            assert(task_ids(activities@).to_multiset().len() == task_ids(activities@).len());
        }
        Chromosome { osv, mav: copy_strings(&parent.mav), activity_index: canonical_index(activities), fitness: UNEVALUATED }
    }

    /// POX: a random non-empty subset of task ids keeps its positions.
    fn pox_crossover(&self, p1: &Chromosome, p2: &Chromosome, activities: &[ActivityInfo], rng: &mut StdRng) -> (r: (Chromosome, Chromosome))
        requires
            p1.valid_for(activities@),
            p2.valid_for(activities@),
        ensures
            r.0.valid_for(activities@),
            r.1.valid_for(activities@),
            r.0.mav@ == p1.mav@,
            r.1.mav@ == p2.mav@,
            r.0.fitness == UNEVALUATED && r.1.fitness == UNEVALUATED,
            exists|sel: Seq<Seq<char>>| #[trigger] pox_pair(p1.osv@, p2.osv@, r.0.osv@, r.1.osv@, sel)
                && (activities@.len() > 0 ==> sel.len() > 0)
                && forall|k: int| 0 <= k < sel.len() ==> task_ids(activities@).contains(#[trigger] sel[k]),
    {
        let ids = distinct_task_ids(activities);
        let selected = if ids.len() == 0 {
            Vec::new()
        } else {
            let size = draw_below(rng, ids.len()) + 1;
            choose_strings(&ids, size, rng)
        };
        let c1 = pox_build_child(&p1.osv, &p2.osv, &selected);
        let c2 = pox_build_child(&p2.osv, &p1.osv, &selected);
        let r = (Self::child_of(c1, p1, activities), Self::child_of(c2, p2, activities));
        proof {
            let sel = views(selected@);
            assert(pox_pair(p1.osv@, p2.osv@, r.0.osv@, r.1.osv@, sel));
            assert forall|k: int| 0 <= k < sel.len() implies task_ids(activities@).contains(#[trigger] sel[k]) by {
                assert(views(ids@).contains(selected@[k]@));
                let i = choose|i: int| 0 <= i < views(ids@).len() && views(ids@)[i] == selected@[k]@;
                assert(task_ids(activities@).contains(ids@[i]@));
            }
        }
        r
    }

    /// JOX, taken here to be POX.
    fn jox_crossover(&self, p1: &Chromosome, p2: &Chromosome, activities: &[ActivityInfo], rng: &mut StdRng) -> (r: (Chromosome, Chromosome))
        requires
            p1.valid_for(activities@),
            p2.valid_for(activities@),
        ensures
            r.0.valid_for(activities@),
            r.1.valid_for(activities@),
            r.0.mav@ == p1.mav@,
            r.1.mav@ == p2.mav@,
            r.0.fitness == UNEVALUATED && r.1.fitness == UNEVALUATED,
            exists|sel: Seq<Seq<char>>| #[trigger] pox_pair(p1.osv@, p2.osv@, r.0.osv@, r.1.osv@, sel)
                && (activities@.len() > 0 ==> sel.len() > 0)
                && forall|k: int| 0 <= k < sel.len() ==> task_ids(activities@).contains(#[trigger] sel[k]),
    {
        self.pox_crossover(p1, p2, activities, rng)
    }

    /// LOX: a random segment of one parent keeps its positions; the other
    /// positions take, in order, the other parent's entries left once the
    /// segment's entries are taken out.
    fn lox_crossover(&self, p1: &Chromosome, p2: &Chromosome, activities: &[ActivityInfo], rng: &mut StdRng) -> (r: (Chromosome, Chromosome))
        requires
            p1.valid_for(activities@),
            p2.valid_for(activities@),
        ensures
            r.0.valid_for(activities@),
            r.1.valid_for(activities@),
            r.0.mav@ == p1.mav@,
            r.1.mav@ == p2.mav@,
            r.0.fitness == UNEVALUATED && r.1.fitness == UNEVALUATED,
            p1.osv@.len() < 2 ==> r.0.osv@ == p1.osv@ && r.1.osv@ == p2.osv@,
            p1.osv@.len() >= 2 ==> exists|a: int, b: int| #[trigger] lox_cut(p1.osv@, p2.osv@, r.0.osv@, r.1.osv@, a, b),
    {
        let n = p1.osv.len();
        if n < 2 {
            return (Self::child_of(copy_strings(&p1.osv), p1, activities), Self::child_of(copy_strings(&p2.osv), p2, activities));
        }
        let a = draw_below(rng, n);
        let b = draw_below(rng, n);
        let (start, end) = if a <= b {
            (a, b)
        } else {
            (b, a)
        };
        let c1 = lox_build_child(&p1.osv, &p2.osv, start, end);
        let c2 = lox_build_child(&p2.osv, &p1.osv, start, end);
        let r = (Self::child_of(c1, p1, activities), Self::child_of(c2, p2, activities));
        proof {
            assert(lox_cut(p1.osv@, p2.osv@, r.0.osv@, r.1.osv@, start as int, end as int));
        }
        r
    }

    /// Mutates the OSV by the configured variant and one MAV entry by a
    /// random candidate, then marks the genome unevaluated.
    pub fn mutate(&self, chromosome: &mut Chromosome, activities: &[ActivityInfo], rng: &mut StdRng)
        ensures
            views(final(chromosome).osv@).to_multiset() == views(old(chromosome).osv@).to_multiset(),
            final(chromosome).osv@.len() == old(chromosome).osv@.len(),
            final(chromosome).mav@.len() == old(chromosome).mav@.len(),
            old(chromosome).mav@.len() == activities@.len() && mav_fits(old(chromosome).mav@, activities@)
                ==> mav_fits(final(chromosome).mav@, activities@),
            final(chromosome).activity_index == old(chromosome).activity_index,
            final(chromosome).fitness == UNEVALUATED,
            old(chromosome).valid_for(activities@) ==> final(chromosome).valid_for(activities@),
            old(chromosome).osv@.len() < 2 ==> final(chromosome).osv@ == old(chromosome).osv@,
            old(chromosome).osv@.len() >= 2 ==> match self.mutation_type {
                MutationType::Swap => swapped(old(chromosome).osv@, final(chromosome).osv@),
                MutationType::Insert => moved(old(chromosome).osv@, final(chromosome).osv@),
                MutationType::Invert => exists|i: int, j: int|
                    #[trigger] segment_reversed(old(chromosome).osv@, final(chromosome).osv@, i, j),
            },
            mav_step(old(chromosome).mav@, final(chromosome).mav@, activities@),
    {
        match self.mutation_type {
            MutationType::Swap => swap_mutation(&mut chromosome.osv, rng),
            MutationType::Insert => insert_mutation(&mut chromosome.osv, rng),
            MutationType::Invert => invert_mutation(&mut chromosome.osv, rng),
        }
        if chromosome.mav.len() > 0 && activities.len() > 0 {
            let bound = if chromosome.mav.len() < activities.len() {
                chromosome.mav.len()
            } else {
                activities.len()
            };
            let idx = draw_below(rng, bound);
            if activities[idx].candidates.len() > 0 {
                let c = choose_string(&activities[idx].candidates, rng);
                let ghost old_mav = chromosome.mav@;
                chromosome.mav.set(idx, c);
                proof {
                    assert(chromosome.mav@ == old_mav.update(idx as int, chromosome.mav@[idx as int]));
                    assert forall|i: int|
                        0 <= i < activities@.len() && activities@[i].candidates@.len() > 0 && mav_fits(old_mav, activities@)
                            && old_mav.len() == activities@.len()
                        implies views(activities@[i].candidates@).contains(#[trigger] chromosome.mav@[i]@) by {
                        if i != idx {
                            assert(chromosome.mav@[i] == old_mav[i]);
                        }
                    }
                }
            }
        }
        chromosome.fitness = UNEVALUATED;
    }
}

/// Exchanges positions `i` and `j`.
fn swap_entries(osv: &mut Vec<String>, i: usize, j: usize)
    requires
        i < old(osv)@.len(),
        j < old(osv)@.len(),
    ensures
        final(osv)@ == old(osv)@.update(i as int, old(osv)@[j as int]).update(j as int, old(osv)@[i as int]),
        views(final(osv)@).to_multiset() == views(old(osv)@).to_multiset(),
{
    let a = osv[i].clone();
    let b = osv[j].clone();
    let ghost s = osv@;
    osv.set(i, b);
    osv.set(j, a);
    proof {
        let v = views(s);
        assert(views(osv@) =~= v.update(i as int, v[j as int]).update(j as int, v[i as int]));
        let m = v.to_multiset();
        assert(v.update(i as int, v[j as int]).to_multiset() == m.insert(v[j as int]).remove(v[i as int]));
        let w = v.update(i as int, v[j as int]);
        assert(w[j as int] == v[j as int]);
        assert(w.update(j as int, v[i as int]).to_multiset() == w.to_multiset().insert(v[i as int]).remove(v[j as int]));
        assert(views(osv@).to_multiset() =~= m);
    }
}

/// `b` is `a`, or `a` with one entry replaced by a candidate of its activity.
pub open spec fn mav_step(a: Seq<String>, b: Seq<String>, acts: Seq<ActivityInfo>) -> bool {
    b == a || exists|idx: int|
        0 <= idx < a.len() && idx < acts.len() && b == #[trigger] a.update(idx, b[idx])
            && views(acts[idx].candidates@).contains(b[idx]@)
}

/// `b` is `a` with two positions exchanged.
pub open spec fn swapped(a: Seq<String>, b: Seq<String>) -> bool {
    exists|i: int, j: int| 0 <= i < a.len() && 0 <= j < a.len() && b == #[trigger] a.update(i, a[j]).update(j, a[i])
}

/// `b` is `a` with one entry moved to another position.
pub open spec fn moved(a: Seq<String>, b: Seq<String>) -> bool {
    exists|f: int, t: int| 0 <= f < a.len() && 0 <= t < a.len() && b == #[trigger] a.remove(f).insert(t, a[f])
}

/// `b` is `a` with the segment `[i, j]` reversed.
pub open spec fn segment_reversed(a: Seq<String>, b: Seq<String>, i: int, j: int) -> bool {
    &&& 0 <= i <= j < a.len()
    &&& b.len() == a.len()
    &&& forall|k: int| 0 <= k < a.len() ==> #[trigger] b[k] == if i <= k <= j { a[i + j - k] } else { a[k] }
}

/// Exchanges two random positions.
fn swap_mutation(osv: &mut Vec<String>, rng: &mut StdRng)
    ensures
        views(final(osv)@).to_multiset() == views(old(osv)@).to_multiset(),
        final(osv)@.len() == old(osv)@.len(),
        old(osv)@.len() < 2 ==> final(osv)@ == old(osv)@,
        old(osv)@.len() >= 2 ==> swapped(old(osv)@, final(osv)@),
{
    if osv.len() < 2 {
        return;
    }
    let i = draw_below(rng, osv.len());
    let j = draw_below(rng, osv.len());
    let ghost s = osv@;
    swap_entries(osv, i, j);
    proof {
        assert(osv@ == s.update(i as int, s[j as int]).update(j as int, s[i as int]));
    }
}

/// Moves a random entry to a random position.
fn insert_mutation(osv: &mut Vec<String>, rng: &mut StdRng)
    ensures
        views(final(osv)@).to_multiset() == views(old(osv)@).to_multiset(),
        final(osv)@.len() == old(osv)@.len(),
        old(osv)@.len() < 2 ==> final(osv)@ == old(osv)@,
        old(osv)@.len() >= 2 ==> moved(old(osv)@, final(osv)@),
{
    if osv.len() < 2 {
        return;
    }
    let from = draw_below(rng, osv.len());
    let to = draw_below(rng, osv.len());
    let ghost s = osv@;
    let item = osv.remove(from);
    let ghost s1 = osv@;
    osv.insert(to, item);
    proof {
        assert(views(s1) =~= views(s).remove(from as int));
        assert(views(osv@) =~= views(s1).insert(to as int, item@));
        assert(views(s)[from as int] == item@);
        assert(views(osv@).to_multiset() =~= views(s).to_multiset());
        assert(osv@ == s.remove(from as int).insert(to as int, s[from as int]));
    }
}

/// Reverses the segment between two random positions.
fn invert_mutation(osv: &mut Vec<String>, rng: &mut StdRng)
    ensures
        views(final(osv)@).to_multiset() == views(old(osv)@).to_multiset(),
        final(osv)@.len() == old(osv)@.len(),
        old(osv)@.len() < 2 ==> final(osv)@ == old(osv)@,
        old(osv)@.len() >= 2 ==> exists|i: int, j: int| #[trigger] segment_reversed(old(osv)@, final(osv)@, i, j),
{
    if osv.len() < 2 {
        return;
    }
    let a = draw_below(rng, osv.len());
    let b = draw_below(rng, osv.len());
    let (i, j) = if a <= b {
        (a, b)
    } else {
        (b, a)
    };
    reverse_segment(osv, i, j);
}

/// Reverses `osv[i..=j]` in place.
pub fn reverse_segment(osv: &mut Vec<String>, i: usize, j: usize)
    requires
        i <= j < old(osv)@.len(),
    ensures
        segment_reversed(old(osv)@, final(osv)@, i as int, j as int),
        views(final(osv)@).to_multiset() == views(old(osv)@).to_multiset(),
{
    let (mut i, mut j) = (i, j);
    let ghost m = views(osv@).to_multiset();
    let ghost n = osv@.len();
    let ghost s0 = osv@;
    let ghost i0 = i as int;
    let ghost j0 = j as int;
    while i < j
        invariant
            j < osv@.len(),
            i <= j + 1,
            osv@.len() == n,
            views(osv@).to_multiset() == m,
            s0.len() == n,
            0 <= i0 <= i,
            j <= j0 < n,
            i - i0 == j0 - j,
            forall|k: int| 0 <= k < n ==> #[trigger] osv@[k] == if (i0 <= k < i || j < k <= j0) { s0[i0 + j0 - k] } else { s0[k] },
        decreases j + 1 - i,
    {
        let ghost before = osv@;
        swap_entries(osv, i, j);
        proof {
            assert(before[i as int] == s0[i as int]);
            assert(before[j as int] == s0[j as int]);
            assert(i0 + j0 - i == j);
        }
        i += 1;
        j -= 1;
    }
    proof {
        assert(segment_reversed(s0, osv@, i0, j0)) by {
            assert forall|k: int| 0 <= k < n implies #[trigger] osv@[k] == if i0 <= k <= j0 { s0[i0 + j0 - k] } else { s0[k] } by {
                if i0 <= k <= j0 && !(k < i || k > j) {
                    assert(k == i && k == j);
                }
            }
        }
    }
}

/// `s` without its first entry equal to `x`, if any.
pub open spec fn remove_first(s: Seq<Seq<char>>, x: Seq<char>) -> Seq<Seq<char>>
    decreases s.len(),
{
    if s.len() == 0 {
        s
    } else if s[0] == x {
        s.drop_first()
    } else {
        seq![s[0]] + remove_first(s.drop_first(), x)
    }
}

/// The entries of `p`, in order, left once one occurrence of each entry of
/// `seg` is taken out (the earliest ones still matching).
pub open spec fn remove_each(p: Seq<Seq<char>>, seg: Seq<Seq<char>>) -> Seq<Seq<char>>
    decreases p.len(),
{
    if p.len() == 0 {
        p
    } else if seg.contains(p[0]) {
        remove_each(p.drop_first(), remove_first(seg, p[0]))
    } else {
        seq![p[0]] + remove_each(p.drop_first(), seg)
    }
}

/// The LOX child for cut points `a <= b`: the segment `p1[a..=b]` in place,
/// the other positions filled in order with the entries of `p2` left once
/// those of the segment are taken out.
pub open spec fn lox_child(p1: Seq<Seq<char>>, p2: Seq<Seq<char>>, a: int, b: int) -> Seq<Seq<char>> {
    let rest = remove_each(p2, p1.subrange(a, b + 1));
    rest.subrange(0, a) + p1.subrange(a, b + 1) + rest.subrange(a, rest.len() as int)
}

proof fn lemma_remove_first_at(s: Seq<Seq<char>>, f: int, x: Seq<char>)
    requires
        0 <= f < s.len(),
        s[f] == x,
        forall|d: int| 0 <= d < f ==> s[d] != x,
    ensures
        remove_first(s, x) == s.remove(f),
    decreases f,
{
    if f == 0 {
        assert(s.drop_first() =~= s.remove(0));
    } else {
        lemma_remove_first_at(s.drop_first(), f - 1, x);
        assert(seq![s[0]] + s.drop_first().remove(f - 1) =~= s.remove(f));
    }
}

/// LOX child: `p1[start..=end]` in place, the other positions filled in
/// order by the entries of `p2` left once those of the segment are taken out.
fn lox_build_child(p1: &Vec<String>, p2: &Vec<String>, start: usize, end: usize) -> (r: Vec<String>)
    requires
        start <= end < p1@.len(),
        views(p1@).to_multiset() == views(p2@).to_multiset(),
    ensures
        r@.len() == p1@.len(),
        views(r@).to_multiset() == views(p1@).to_multiset(),
        forall|k: int| start <= k <= end ==> #[trigger] r@[k] == p1@[k],
        views(r@) == lox_child(views(p1@), views(p2@), start as int, end as int),
{
    let ghost seg = views(p1@.subrange(start as int, end + 1));
    let len = p1.len();
    let stop = end + 1;
    let mut pending: Vec<String> = Vec::new();
    let mut k: usize = start;
    while k < stop
        invariant
            start <= k <= end + 1,
            stop == end + 1,
            end < p1@.len(),
            views(pending@) == views(p1@.subrange(start as int, k as int)),
        decreases end + 1 - k,
    {
        proof {
            assert(views(p1@.subrange(start as int, k + 1)) =~= views(p1@.subrange(start as int, k as int)).push(p1@[k as int]@));
            lemma_views_push(pending@, p1@[k as int]);
        }
        pending.push(p1[k].clone());
        k += 1;
    }
    let mut rest: Vec<String> = Vec::new();
    let mut j: usize = 0;
    proof {
        assert(views(p2@).skip(0) =~= views(p2@));
        assert(views(pending@) =~= seg);
        assert(views(rest@) + remove_each(views(p2@).skip(0), views(pending@)) =~= remove_each(views(p2@), seg));
    }
    while j < p2.len()
        invariant
            j <= p2@.len(),
            seg == views(p1@.subrange(start as int, end + 1)),
            views(rest@).to_multiset().add(seg.to_multiset())
                == views(p2@.subrange(0, j as int)).to_multiset().add(views(pending@).to_multiset()),
            forall|x: Seq<char>| #[trigger] views(pending@).contains(x) ==> views(rest@).to_multiset().count(x) == 0,
            views(rest@) + remove_each(views(p2@).skip(j as int), views(pending@)) == remove_each(views(p2@), seg),
        decreases p2@.len() - j,
    {
        proof {
            lemma_views_prefix(p2@, j as int);
        }
        let mut q: usize = 0;
        let mut found: Option<usize> = None;
        while q < pending.len()
            invariant
                q <= pending@.len(),
                found matches Some(f) ==> f < pending@.len() && pending@[f as int]@ == p2@[j as int]@
                    && forall|d: int| 0 <= d < f ==> pending@[d]@ != p2@[j as int]@,
                found is None ==> forall|d: int| 0 <= d < q ==> pending@[d]@ != p2@[j as int]@,
                j < p2@.len(),
            decreases pending@.len() - q,
        {
            if found.is_none() && pending[q] == p2[j] {
                found = Some(q);
            }
            q += 1;
        }
        match found {
            Some(f) => {
                let ghost old_p = pending@;
                pending.remove(f);
                proof {
                    let x = p2@[j as int]@;
                    let pv = views(p2@).skip(j as int);
                    assert(pv[0] == x);
                    assert(pv.drop_first() =~= views(p2@).skip(j + 1));
                    assert(views(old_p)[f as int] == x);
                    assert(views(old_p).contains(x));
                    lemma_remove_first_at(views(old_p), f as int, x);
                    assert(views(pending@) =~= views(old_p).remove(f as int));
                    assert(views(pending@) =~= views(old_p).remove(f as int));
                    assert(views(old_p)[f as int] == p2@[j as int]@);
                    let x = p2@[j as int]@;
                    assert(views(pending@).to_multiset() == views(old_p).to_multiset().remove(x));
                    assert(views(old_p).to_multiset().count(x) > 0);
                    assert forall|y: Seq<char>| #[trigger] views(pending@).contains(y)
                        implies views(rest@).to_multiset().count(y) == 0 by {
                        let d = choose|d: int| 0 <= d < views(pending@).len() && views(pending@)[d] == y;
                        if d < f {
                            assert(views(old_p)[d] == y);
                        } else {
                            assert(views(old_p)[d + 1] == y);
                        }
                        assert(views(old_p).contains(y));
                    }
                    assert(views(rest@).to_multiset().add(seg.to_multiset())
                        =~= views(p2@.subrange(0, j + 1)).to_multiset().add(views(pending@).to_multiset()));
                }
            },
            None => {
                let ghost old_r = rest@;
                proof {
                    lemma_views_push(rest@, p2@[j as int]);
                }
                rest.push(p2[j].clone());
                proof {
                    let x = p2@[j as int]@;
                    assert(!views(pending@).contains(x)) by {
                        if views(pending@).contains(x) {
                            let d = choose|d: int| 0 <= d < views(pending@).len() && views(pending@)[d] == x;
                            assert(pending@[d]@ == x);
                        }
                    }
                    assert(views(rest@).to_multiset() == views(old_r).to_multiset().insert(x));
                    assert(views(p2@.subrange(0, j + 1)).to_multiset() == views(p2@.subrange(0, j as int)).to_multiset().insert(x));
                    assert forall|y: Seq<char>|
                        views(rest@).to_multiset().add(seg.to_multiset()).count(y)
                            == views(p2@.subrange(0, j + 1)).to_multiset().add(views(pending@).to_multiset()).count(y) by {
                        assert(views(old_r).to_multiset().add(seg.to_multiset()).count(y)
                            == views(p2@.subrange(0, j as int)).to_multiset().add(views(pending@).to_multiset()).count(y));
                    }
                    assert forall|y: Seq<char>| #[trigger] views(pending@).contains(y)
                        implies views(rest@).to_multiset().count(y) == 0 by {
                        assert(views(old_r).to_multiset().count(y) == 0);
                    }
                    assert(views(rest@).to_multiset().add(seg.to_multiset())
                        =~= views(p2@.subrange(0, j + 1)).to_multiset().add(views(pending@).to_multiset()));
                    let pv = views(p2@).skip(j as int);
                    assert(pv[0] == x);
                    assert(pv.drop_first() =~= views(p2@).skip(j + 1));
                    assert(views(rest@) =~= views(old_r).push(x));
                    assert(remove_each(pv, views(pending@)) == seq![x] + remove_each(views(p2@).skip(j + 1), views(pending@)));
                    assert(views(rest@) + remove_each(views(p2@).skip(j + 1), views(pending@))
                        =~= views(old_r) + remove_each(pv, views(pending@)));
                }
            },
        }
        j += 1;
    }
    proof {
        assert(p2@.subrange(0, j as int) =~= p2@);
        assert(views(p2@).skip(j as int) =~= Seq::<Seq<char>>::empty());
        let whole = views(p1@);
        assert(whole =~= views(p1@.subrange(0, start as int)) + seg + views(p1@.subrange(end + 1, p1@.len() as int)));
        if pending@.len() > 0 {
            let x = views(pending@)[0];
            assert(views(pending@).contains(x));
            assert(views(pending@).to_multiset().count(x) > 0);
            assert(views(rest@).to_multiset().count(x) == 0);
            assert(views(p2@.subrange(0, j as int)) == views(p2@));
            assert(views(rest@).to_multiset().add(seg.to_multiset()).count(x)
                == views(p2@).to_multiset().add(views(pending@).to_multiset()).count(x));
            assert(seg.to_multiset().count(x) == views(p2@).to_multiset().count(x) + views(pending@).to_multiset().count(x));
            assert(seg.to_multiset().count(x) <= whole.to_multiset().count(x));
            assert(false);
        }
        assert(views(pending@) =~= Seq::<Seq<char>>::empty());
        assert(views(rest@).to_multiset().add(seg.to_multiset()) =~= whole.to_multiset());
        assert(views(rest@).len() + seg.len() == whole.len()) by {
            assert(views(rest@).to_multiset().add(seg.to_multiset()).len() == whole.to_multiset().len());
        }
    }
    let mut r: Vec<String> = Vec::new();
    let mut i: usize = 0;
    while i < start
        invariant
            i <= start,
            start <= end < p1@.len(),
            rest@.len() + (end + 1 - start) == p1@.len(),
            r@ == rest@.subrange(0, i as int),
        decreases start - i,
    {
        r.push(rest[i].clone());
        proof {
            assert(r@ =~= rest@.subrange(0, i + 1));
        }
        i += 1;
    }
    let mut k: usize = start;
    while k < stop
        invariant
            start <= k <= end + 1,
            stop == end + 1,
            end < p1@.len(),
            r@ == rest@.subrange(0, start as int) + p1@.subrange(start as int, k as int),
        decreases end + 1 - k,
    {
        r.push(p1[k].clone());
        proof {
            assert(r@ =~= rest@.subrange(0, start as int) + p1@.subrange(start as int, k + 1));
        }
        k += 1;
    }
    let mut i: usize = start;
    while i < rest.len()
        invariant
            start <= i <= rest@.len(),
            r@ == rest@.subrange(0, start as int) + p1@.subrange(start as int, end + 1) + rest@.subrange(start as int, i as int),
        decreases rest@.len() - i,
    {
        r.push(rest[i].clone());
        proof {
            assert(r@ =~= rest@.subrange(0, start as int) + p1@.subrange(start as int, end + 1) + rest@.subrange(start as int, i + 1));
        }
        i += 1;
    }
    proof {
        let a = rest@.subrange(0, start as int);
        let b = p1@.subrange(start as int, end + 1);
        let c = rest@.subrange(start as int, rest@.len() as int);
        assert(views(r@) =~= views(a) + views(b) + views(c));
        assert(views(rest@) =~= views(a) + views(c));
        assert(views(b) == seg);
        assert(views(r@).to_multiset() =~= views(rest@).to_multiset().add(seg.to_multiset()));
        assert forall|k: int| start <= k <= end implies #[trigger] r@[k] == p1@[k] by {
            assert(r@[k] == b[k - start]);
        }
        let rv = remove_each(views(p2@), views(p1@).subrange(start as int, end + 1));
        assert(views(p1@).subrange(start as int, end + 1) =~= seg);
        assert(views(rest@) == rv);
        assert(views(a) =~= rv.subrange(0, start as int));
        assert(views(c) =~= rv.subrange(start as int, rv.len() as int));
        assert(views(b) =~= views(p1@).subrange(start as int, end + 1));
        assert(views(r@) =~= lox_child(views(p1@), views(p2@), start as int, end as int));
    }
    r
}

} // verus!

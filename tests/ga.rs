use rand::rngs::StdRng;
use rand::SeedableRng;
use u_ras::ga::chromosome::{build_process_times, ActivityInfo, Chromosome, ProcessTime, UNEVALUATED};
use u_ras::ga::operators::{tournament_selection, CrossoverType, GeneticOperators, MutationType};
use u_ras::ga::population::{GaParams, Population};
use u_ras::models::resource::{Resource, ResourceType};

fn info(task: &str, act: &str, seq: i32, cands: &[&str], t: i64) -> ActivityInfo {
    ActivityInfo {
        task_id: task.to_string(),
        activity_id: act.to_string(),
        sequence: seq,
        candidates: cands.iter().map(|c| c.to_string()).collect(),
        process_time_ms: t,
    }
}

fn create_test_activities() -> Vec<ActivityInfo> {
    vec![
        info("T1", "T1-A1", 1, &["R1", "R2"], 30000),
        info("T1", "T1-A2", 2, &["R2", "R3"], 45000),
        info("T2", "T2-A1", 1, &["R1", "R3"], 20000),
    ]
}

fn create_test_resources() -> Vec<Resource> {
    vec![
        Resource::new("R1", ResourceType::Primary),
        Resource::new("R2", ResourceType::Primary),
        Resource::new("R3", ResourceType::Primary),
    ]
}

fn many_activities() -> Vec<ActivityInfo> {
    let mut v = Vec::new();
    for t in 0..5 {
        for k in 0..3 {
            v.push(info(&format!("T{}", t), &format!("T{}-A{}", t, k), k + 1, &["R1", "R2", "R3"], 1000 * (1 + k as i64)));
        }
    }
    v
}

fn params(size: usize) -> GaParams {
    GaParams { population_size: size, ..Default::default() }
}

#[test]
fn test_random_chromosome() {
    let activities = create_test_activities();
    let mut rng = StdRng::seed_from_u64(1);
    let chromosome = Chromosome::random(&activities, &mut rng);
    assert_eq!(chromosome.osv.len(), 3);
    assert_eq!(chromosome.mav.len(), 3);
    assert!(chromosome.is_valid(&activities));
}

#[test]
fn test_decode_osv() {
    let activities = create_test_activities();
    let mut rng = StdRng::seed_from_u64(2);
    let chromosome = Chromosome::random(&activities, &mut rng);
    let decoded = chromosome.decode_osv();
    assert_eq!(decoded.len(), 3);
    let t1_count = decoded.iter().filter(|(id, _)| id == "T1").count();
    let t2_count = decoded.iter().filter(|(id, _)| id == "T2").count();
    assert_eq!(t1_count, 2);
    assert_eq!(t2_count, 1);
}

#[test]
fn decode_numbers_occurrences() {
    let c = Chromosome {
        osv: vec!["T1".into(), "T2".into(), "T1".into()],
        mav: vec![],
        activity_index: vec![],
        fitness: UNEVALUATED,
    };
    assert_eq!(c.decode_osv(), vec![("T1".to_string(), 1), ("T2".to_string(), 1), ("T1".to_string(), 2)]);
}

#[test]
fn test_validity() {
    let activities = create_test_activities();
    let mut rng = StdRng::seed_from_u64(3);
    let mut chromosome = Chromosome::random(&activities, &mut rng);
    assert!(chromosome.is_valid(&activities));
    chromosome.mav[0] = "INVALID".to_string();
    assert!(!chromosome.is_valid(&activities));
}

#[test]
fn wrong_task_counts_are_invalid() {
    let activities = create_test_activities();
    let mut rng = StdRng::seed_from_u64(4);
    let mut c = Chromosome::random(&activities, &mut rng);
    c.osv = vec!["T1".into(), "T2".into(), "T2".into()];
    assert!(!c.is_valid(&activities));
}

#[test]
fn shuffled_osv_varies_with_seed() {
    let activities = many_activities();
    let canonical: Vec<String> = activities.iter().map(|a| a.task_id.clone()).collect();
    let mut differs = false;
    for seed in 0..5 {
        let mut rng = StdRng::seed_from_u64(seed);
        let c = Chromosome::random(&activities, &mut rng);
        assert!(c.is_valid(&activities));
        let mut a = c.osv.clone();
        let mut b = canonical.clone();
        a.sort();
        b.sort();
        assert_eq!(a, b);
        if c.osv != canonical {
            differs = true;
        }
    }
    assert!(differs);
}

#[test]
fn seeded_strategies_are_valid() {
    let activities = many_activities();
    let resources = create_test_resources();
    let mut rng = StdRng::seed_from_u64(5);
    let lb = Chromosome::with_load_balancing(&activities, &resources, &mut rng);
    assert!(lb.is_valid(&activities));
    let times = build_process_times(&activities);
    let st = Chromosome::with_shortest_time(&activities, &times, &mut rng);
    assert!(st.is_valid(&activities));
    assert_eq!(st.fitness, UNEVALUATED);
}

#[test]
fn load_balancing_spreads_work() {
    let activities = vec![
        info("T1", "A", 1, &["R1", "R2"], 100),
        info("T2", "B", 1, &["R1", "R2"], 100),
        info("T3", "C", 1, &["R1", "R2"], 100),
    ];
    let resources = vec![Resource::primary("R1"), Resource::primary("R2")];
    let mut rng = StdRng::seed_from_u64(6);
    let c = Chromosome::with_load_balancing(&activities, &resources, &mut rng);
    assert_eq!(c.mav, vec!["R1", "R2", "R1"]);
}

#[test]
fn assigned_resource_lookup_and_update() {
    let activities = create_test_activities();
    let mut rng = StdRng::seed_from_u64(7);
    let mut c = Chromosome::random(&activities, &mut rng);
    c.set_resource("T1", 2, "R3".to_string());
    assert_eq!(c.get_assigned_resource("T1", 2), Some(&"R3".to_string()));
    assert_eq!(c.get_assigned_resource("T9", 1), None);
}

#[test]
fn test_crossover() {
    let activities = create_test_activities();
    let mut rng = StdRng::seed_from_u64(8);
    let operators = GeneticOperators::default();
    let p1 = Chromosome::random(&activities, &mut rng);
    let p2 = Chromosome::random(&activities, &mut rng);
    let (c1, c2) = operators.crossover(&p1, &p2, &activities, &mut rng);
    assert_eq!(c1.osv.len(), 3);
    assert_eq!(c2.osv.len(), 3);
}

#[test]
fn every_crossover_and_mutation_keeps_validity() {
    let activities = many_activities();
    let mut rng = StdRng::seed_from_u64(9);
    for ct in [CrossoverType::POX, CrossoverType::LOX, CrossoverType::JOX] {
        for mt in [MutationType::Swap, MutationType::Insert, MutationType::Invert] {
            let ops = GeneticOperators { crossover_type: ct, mutation_type: mt };
            for _ in 0..20 {
                let p1 = Chromosome::random(&activities, &mut rng);
                let p2 = Chromosome::random(&activities, &mut rng);
                let (mut c1, mut c2) = ops.crossover(&p1, &p2, &activities, &mut rng);
                assert!(c1.is_valid(&activities));
                assert!(c2.is_valid(&activities));
                assert_eq!(c1.mav, p1.mav);
                ops.mutate(&mut c1, &activities, &mut rng);
                ops.mutate(&mut c2, &activities, &mut rng);
                assert!(c1.is_valid(&activities));
                assert!(c2.is_valid(&activities));
                assert_eq!(c1.fitness, UNEVALUATED);
            }
        }
    }
}

#[test]
fn test_mutation() {
    let activities = create_test_activities();
    let mut rng = StdRng::seed_from_u64(10);
    let operators = GeneticOperators::default();
    let mut chromosome = Chromosome::random(&activities, &mut rng);
    operators.mutate(&mut chromosome, &activities, &mut rng);
    assert_eq!(chromosome.osv.len(), 3);
}

#[test]
fn tournament_returns_a_member() {
    let activities = create_test_activities();
    let mut rng = StdRng::seed_from_u64(11);
    let mut pop: Vec<Chromosome> = (0..4).map(|_| Chromosome::random(&activities, &mut rng)).collect();
    for (i, c) in pop.iter_mut().enumerate() {
        c.fitness = 10 - i as i64;
    }
    let winner = tournament_selection(&pop, 50, &mut rng);
    assert_eq!(winner.fitness, 7);
}

#[test]
fn test_population_creation() {
    let activities = create_test_activities();
    let resources = create_test_resources();
    let mut rng = StdRng::seed_from_u64(12);
    let population = Population::new(&activities, &resources, params(20), GeneticOperators::default(), &mut rng);
    assert_eq!(population.individuals.len(), 20);
    assert_eq!(population.generation, 0);
}

#[test]
fn empty_task_set_gives_empty_population() {
    let mut rng = StdRng::seed_from_u64(13);
    let mut population = Population::new(&[], &create_test_resources(), params(20), GeneticOperators::default(), &mut rng);
    assert!(population.individuals.is_empty());
    population.evolve(&[], &mut rng);
    assert!(population.individuals.is_empty());
    assert_eq!(population.generation, 1);
}

#[test]
fn test_population_evolution() {
    let activities = create_test_activities();
    let resources = create_test_resources();
    let mut rng = StdRng::seed_from_u64(14);
    let mut population = Population::new(&activities, &resources, params(10), GeneticOperators::default(), &mut rng);
    for (i, individual) in population.individuals.iter_mut().enumerate() {
        individual.fitness = (i * 1000) as i64;
    }
    population.evolve(&activities, &mut rng);
    assert_eq!(population.generation, 1);
    assert_eq!(population.individuals.len(), 10);
    assert!(population.best.is_some());
    assert!(population.individuals.iter().all(|c| c.is_valid(&activities)));
}

#[test]
fn test_population_statistics() {
    let activities = create_test_activities();
    let resources = create_test_resources();
    let mut rng = StdRng::seed_from_u64(15);
    let mut population = Population::new(&activities, &resources, params(10), GeneticOperators::default(), &mut rng);
    for (i, individual) in population.individuals.iter_mut().enumerate() {
        individual.fitness = ((i + 1) * 100) as i64;
    }
    let stats = population.statistics();
    assert_eq!(stats.best_fitness, 100);
    assert_eq!(stats.worst_fitness, 1000);
    assert!(stats.mean_fitness > 0);
    assert_eq!(stats.mean_fitness, 550);
}

#[test]
fn test_convergence_detection() {
    let activities = create_test_activities();
    let resources = create_test_resources();
    let mut rng = StdRng::seed_from_u64(16);
    let p = GaParams { population_size: 10, convergence_generations: 5, convergence_threshold: 10_000, ..Default::default() };
    let mut population = Population::new(&activities, &resources, p, GeneticOperators::default(), &mut rng);
    population.fitness_history = vec![100, 100, 100, 100, 100];
    assert!(population.is_converged());
    population.fitness_history = vec![100, 90, 80, 70, 60];
    assert!(!population.is_converged());
    population.fitness_history = vec![0, 50, 50, 50, 50];
    assert!(population.is_converged());
    population.fitness_history = vec![100, 100, 100];
    assert!(!population.is_converged());
}

#[test]
fn test_elite_preservation() {
    let activities = create_test_activities();
    let resources = create_test_resources();
    let mut rng = StdRng::seed_from_u64(17);
    let p = GaParams { population_size: 10, elite_ratio: 200_000, ..Default::default() };
    let mut population = Population::new(&activities, &resources, p, GeneticOperators::default(), &mut rng);
    for (i, individual) in population.individuals.iter_mut().enumerate() {
        individual.fitness = (i * 100) as i64;
    }
    let best_before = population.individuals[0].clone();
    population.evolve(&activities, &mut rng);
    assert!(population.individuals.iter().any(|c| c.osv == best_before.osv));
}

#[test]
fn best_fitness_never_increases() {
    let activities = many_activities();
    let resources = create_test_resources();
    let mut rng = StdRng::seed_from_u64(18);
    let mut population = Population::new(&activities, &resources, params(12), GeneticOperators::default(), &mut rng);
    let mut previous = i64::MAX;
    for round in 0..6i64 {
        for (i, c) in population.individuals.iter_mut().enumerate() {
            c.fitness = ((i as i64 * 37 + round * 11) % 50) + 10;
        }
        population.evolve(&activities, &mut rng);
        let best = population.get_best().unwrap().fitness;
        assert!(best <= previous);
        previous = best;
        assert_eq!(population.fitness_history.len() as i64, round + 1);
    }
}

#[test]
fn shortest_time_picks_fastest_candidate() {
    let activities = vec![info("T1", "A", 1, &["R1", "R2", "R3"], 100), info("T2", "B", 1, &["R1", "R2"], 100)];
    let pt = |a: &str, r: &str, t: i64| ProcessTime { activity_id: a.to_string(), resource_id: r.to_string(), time_ms: t };
    let times = vec![pt("A", "R1", 50), pt("A", "R2", 20), pt("A", "R3", 20), pt("B", "R1", 5), pt("B", "R1", 90), pt("B", "R2", 40)];
    let mut rng = StdRng::seed_from_u64(19);
    let c = Chromosome::with_shortest_time(&activities, &times, &mut rng);
    assert_eq!(c.mav, vec!["R2", "R2"]);
}

fn remove_each(p: &[String], seg: &[String]) -> Vec<String> {
    let mut pending: Vec<String> = seg.to_vec();
    let mut out = Vec::new();
    for x in p {
        if let Some(f) = pending.iter().position(|y| y == x) {
            pending.remove(f);
        } else {
            out.push(x.clone());
        }
    }
    out
}

#[test]
fn lox_children_keep_segment_and_fill_in_order() {
    let activities = many_activities();
    let ops = GeneticOperators { crossover_type: CrossoverType::LOX, mutation_type: MutationType::Swap };
    let mut rng = StdRng::seed_from_u64(21);
    for _ in 0..10 {
        let p1 = Chromosome::random(&activities, &mut rng);
        let p2 = Chromosome::random(&activities, &mut rng);
        let (c1, _) = ops.crossover(&p1, &p2, &activities, &mut rng);
        let n = p1.osv.len();
        let mut found = false;
        for a in 0..n {
            for b in a..n {
                let rest = remove_each(&p2.osv, &p1.osv[a..=b]);
                let mut child: Vec<String> = rest[..a].to_vec();
                child.extend_from_slice(&p1.osv[a..=b]);
                child.extend_from_slice(&rest[a..]);
                if child == c1.osv {
                    found = true;
                }
            }
        }
        assert!(found);
    }
}

#[test]
fn unknown_activity_has_no_resource_and_set_is_ignored() {
    let activities = create_test_activities();
    let mut rng = StdRng::seed_from_u64(22);
    let mut c = Chromosome::random(&activities, &mut rng);
    let before = c.mav.clone();
    c.set_resource("T9", 1, "R1".to_string());
    assert_eq!(c.mav, before);
    assert_eq!(c.get_assigned_resource("T1", 1), Some(&c.mav[0]));
}

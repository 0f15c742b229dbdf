use u_ras::dispatching::context::SchedulingContext;
use u_ras::dispatching::engine::{EvaluationMode, RuleEngine, TieBreaker};
use u_ras::dispatching::rules::{Cr, Edd, Fifo, Lpt, Lpul, Lwkr, Mst, Mwkr, Rule, Score, Spt, Sro, Winq, Wspt};
use u_ras::models::activity::{Activity, ActivityDuration};
use u_ras::models::resource::Resource;
use u_ras::models::task::Task;
use u_ras::scheduler::simple::SimpleScheduler;

/// A score as a plain number; infinite scores become infinity.
fn val(s: Score) -> f64 {
    match s.micros() {
        Some(v) => v as f64 / 1_000_000.0,
        None => f64::INFINITY,
    }
}

fn bare_task(id: &str, priority: i32, deadline: Option<i64>, release: Option<i64>, activities: Vec<Activity>) -> Task {
    Task {
        id: id.to_string(),
        name: id.to_string(),
        category: String::new(),
        priority,
        deadline,
        release_time: release,
        activities,
        attributes: Default::default(),
    }
}

fn make_task(id: &str, duration_ms: i64, deadline_ms: Option<i64>) -> Task {
    bare_task(
        id,
        0,
        deadline_ms,
        None,
        vec![Activity::new(&format!("{}-A1", id), id, 1).with_duration(ActivityDuration::fixed(duration_ms))],
    )
}

fn make_task_durations(id: &str, durations: &[i64], priority: i32) -> Task {
    let activities = durations
        .iter()
        .enumerate()
        .map(|(i, &d)| Activity::new(&format!("{}-A{}", id, i), id, i as i32 + 1).with_duration(ActivityDuration::fixed(d)))
        .collect();
    bare_task(id, priority, None, None, activities)
}

fn make_task_with_resources(id: &str, resource_ids: Vec<&str>) -> Task {
    bare_task(
        id,
        0,
        None,
        None,
        vec![Activity::new(&format!("{}-A1", id), id, 1)
            .with_duration(ActivityDuration::fixed(1000))
            .with_resources("machine", resource_ids.into_iter().map(String::from).collect())],
    )
}

#[test]
fn test_empty_engine() {
    let engine = RuleEngine::new();
    assert!(engine.is_empty());
    assert_eq!(engine.rule_count(), 0);
}

#[test]
fn test_add_rules() {
    let engine = RuleEngine::new().with_rule(Rule::Spt).with_rule(Rule::Spt);
    assert!(!engine.is_empty());
    assert_eq!(engine.rule_count(), 2);
}

#[test]
fn test_edd_prioritizes_earlier_deadline() {
    let urgent = make_task("urgent", 1000, Some(5000));
    let relaxed = make_task("relaxed", 1000, Some(10000));
    let ctx = SchedulingContext::at_epoch();
    assert!(val(Edd.evaluate(&urgent, &ctx)) < val(Edd.evaluate(&relaxed, &ctx)));
}

#[test]
fn test_edd_no_deadline_lowest_priority() {
    let with_deadline = make_task("with", 1000, Some(10000));
    let without = bare_task("without", 0, None, None, vec![]);
    let ctx = SchedulingContext::at_epoch();
    assert!(val(Edd.evaluate(&with_deadline, &ctx)) < val(Edd.evaluate(&without, &ctx)));
}

#[test]
fn test_mst_prioritizes_least_slack() {
    let tight = make_task("tight", 9000, Some(10000));
    let loose = make_task("loose", 5000, Some(10000));
    let ctx = SchedulingContext::at_epoch();
    assert!(val(Mst.evaluate(&tight, &ctx)) < val(Mst.evaluate(&loose, &ctx)));
}

#[test]
fn test_cr_prioritizes_behind_schedule() {
    let behind = make_task("behind", 5000, Some(4000));
    let ahead = make_task("ahead", 5000, Some(10000));
    let ctx = SchedulingContext::at_epoch();
    assert!(val(Cr.evaluate(&behind, &ctx)) < val(Cr.evaluate(&ahead, &ctx)));
    assert_eq!(val(Cr.evaluate(&behind, &ctx)), 0.8);
}

#[test]
fn test_sro_accounts_for_operation_count() {
    let single_op = make_task("single", 5000, Some(10000));
    let multi_op = bare_task(
        "multi",
        0,
        Some(10000),
        None,
        vec![
            Activity::new("multi-A1", "multi", 1).with_duration(ActivityDuration::fixed(2500)),
            Activity::new("multi-A2", "multi", 2).with_duration(ActivityDuration::fixed(2500)),
        ],
    );
    let ctx = SchedulingContext::at_epoch();
    assert!(val(Sro.evaluate(&multi_op, &ctx)) < val(Sro.evaluate(&single_op, &ctx)));
    assert_eq!(val(Sro.evaluate(&multi_op, &ctx)), 2500.0);
}

#[test]
fn test_fifo_prioritizes_earlier_arrival() {
    let first = make_task("first", 1000, None);
    let second = make_task("second", 1000, None);
    let ctx = SchedulingContext::at_epoch().with_arrival_time("first", 1000).with_arrival_time("second", 2000);
    assert!(val(Fifo.evaluate(&first, &ctx)) < val(Fifo.evaluate(&second, &ctx)));
}

#[test]
fn test_fifo_uses_release_time_as_fallback() {
    let task = bare_task("task", 0, None, Some(5000), vec![]);
    let ctx = SchedulingContext::at_epoch();
    assert_eq!(val(Fifo.evaluate(&task, &ctx)), 5000.0);
}

#[test]
fn test_winq_prioritizes_shorter_queues() {
    let short_queue = make_task("short", 1000, None);
    let long_queue = make_task("long", 1000, None);
    let ctx = SchedulingContext::at_epoch().with_next_queue("short", 2).with_next_queue("long", 10);
    assert!(val(Winq.evaluate(&short_queue, &ctx)) < val(Winq.evaluate(&long_queue, &ctx)));
}

#[test]
fn test_lpul_prioritizes_underutilized_resources() {
    let uses_idle = make_task_with_resources("uses_idle", vec!["R1"]);
    let uses_busy = make_task_with_resources("uses_busy", vec!["R2"]);
    let ctx = SchedulingContext::at_epoch().with_utilization("R1", 200_000).with_utilization("R2", 900_000);
    assert!(val(Lpul.evaluate(&uses_idle, &ctx)) < val(Lpul.evaluate(&uses_busy, &ctx)));
}

#[test]
fn test_lpul_picks_least_utilized_candidate() {
    let task = make_task_with_resources("task", vec!["R1", "R2"]);
    let ctx = SchedulingContext::at_epoch().with_utilization("R1", 800_000).with_utilization("R2", 300_000);
    assert_eq!(val(Lpul.evaluate(&task, &ctx)), 0.3);
}

#[test]
fn test_spt_prioritizes_shorter_tasks() {
    let short = make_task_durations("short", &[1000, 2000], 0);
    let long = make_task_durations("long", &[5000, 5000], 0);
    let ctx = SchedulingContext::default();
    assert!(val(Spt.evaluate(&short, &ctx)) < val(Spt.evaluate(&long, &ctx)));
    assert_eq!(val(Spt.evaluate(&short, &ctx)), 3000.0);
}

#[test]
fn test_lpt_prioritizes_longer_tasks() {
    let short = make_task_durations("short", &[1000, 2000], 0);
    let long = make_task_durations("long", &[5000, 5000], 0);
    let ctx = SchedulingContext::default();
    assert!(val(Lpt.evaluate(&long, &ctx)) < val(Lpt.evaluate(&short, &ctx)));
}

#[test]
fn test_lwkr_uses_context_remaining_work() {
    let task1 = make_task_durations("T1", &[10000], 0);
    let task2 = make_task_durations("T2", &[10000], 0);
    let ctx = SchedulingContext::default().with_remaining_work("T1", 2000).with_remaining_work("T2", 8000);
    assert!(val(Lwkr.evaluate(&task1, &ctx)) < val(Lwkr.evaluate(&task2, &ctx)));
}

#[test]
fn test_mwkr_prioritizes_most_remaining() {
    let task1 = make_task_durations("T1", &[10000], 0);
    let task2 = make_task_durations("T2", &[10000], 0);
    let ctx = SchedulingContext::default().with_remaining_work("T1", 2000).with_remaining_work("T2", 8000);
    assert!(val(Mwkr.evaluate(&task2, &ctx)) < val(Mwkr.evaluate(&task1, &ctx)));
}

#[test]
fn test_wspt_prioritizes_high_weight_short_time() {
    let high_priority_short = make_task_durations("hp_short", &[1000], 1);
    let low_priority_long = make_task_durations("lp_long", &[5000], 10);
    let ctx = SchedulingContext::default();
    assert!(val(Wspt.evaluate(&high_priority_short, &ctx)) < val(Wspt.evaluate(&low_priority_long, &ctx)));
}

#[test]
fn test_wspt_weight_vs_time_tradeoff() {
    let short_low = make_task_durations("short_low", &[1000], 10);
    let long_high = make_task_durations("long_high", &[10000], 1);
    let ctx = SchedulingContext::default();
    let score_short = val(Wspt.evaluate(&short_low, &ctx));
    let score_long = val(Wspt.evaluate(&long_high, &ctx));
    assert!(score_short.is_finite());
    assert!(score_long.is_finite());
    assert!(score_short < 0.0);
    assert!(score_long < 0.0);
}

#[test]
fn wspt_without_work_is_infinite() {
    let empty = make_task_durations("e", &[], 1);
    assert!(Wspt.evaluate(&empty, &SchedulingContext::default()).is_infinite());
    let minus_one = make_task_durations("m", &[1000], -1);
    assert!(Wspt.evaluate(&minus_one, &SchedulingContext::default()).is_infinite());
}

#[test]
fn cr_without_remaining_work_is_infinite() {
    let t = make_task("t", 1000, Some(5000));
    let ctx = SchedulingContext::at_epoch().with_remaining_work("t", 0);
    assert!(Cr.evaluate(&t, &ctx).is_infinite());
}

#[test]
fn rule_names() {
    assert_eq!(Spt.name(), "SPT");
    assert_eq!(Sro.name(), "S/RO");
    assert_eq!(Rule::Lpul.name(), "LPUL");
    assert_eq!(Edd.rule(), Rule::Edd);
}

#[test]
fn test_rule_engine_sort_by_spt() {
    let t1 = make_task("T1", 5000, None);
    let t2 = make_task("T2", 2000, None);
    let t3 = make_task("T3", 8000, None);
    let engine = RuleEngine::new().with_rule(Rule::Spt);
    let ctx = SchedulingContext::default();
    let tasks: Vec<&Task> = vec![&t1, &t2, &t3];
    let sorted = engine.sort(&tasks, &ctx);
    assert_eq!(sorted[0].id, "T2");
    assert_eq!(sorted[1].id, "T1");
    assert_eq!(sorted[2].id, "T3");
}

#[test]
fn spt_order_then_schedule_on_one_resource() {
    let mk = |id: &str, d: i64| {
        bare_task(id, 0, None, None, vec![Activity::new(&format!("{}-A1", id), id, 1)
            .with_duration(ActivityDuration::fixed(d))
            .with_resources("m", vec!["M1".into()])])
    };
    let (t1, t2, t3) = (mk("T1", 5000), mk("T2", 2000), mk("T3", 8000));
    let engine = RuleEngine::new().with_rule(Rule::Spt);
    let tasks: Vec<&Task> = vec![&t1, &t2, &t3];
    let ordered: Vec<Task> = engine.sort(&tasks, &SchedulingContext::default()).into_iter().cloned().collect();
    let schedule = SimpleScheduler::new().schedule(&ordered, &[Resource::primary("M1")], 0);
    let ends: Vec<(String, i64)> = schedule.assignments.iter().map(|a| (a.task_id.clone(), a.end_ms)).collect();
    assert_eq!(ends, vec![("T2".to_string(), 2000), ("T1".to_string(), 7000), ("T3".to_string(), 15000)]);
}

#[test]
fn test_rule_engine_sort_by_edd() {
    let t1 = make_task("T1", 1000, Some(10000));
    let t2 = make_task("T2", 1000, Some(5000));
    let t3 = make_task("T3", 1000, None);
    let engine = RuleEngine::new().with_rule(Rule::Edd);
    let ctx = SchedulingContext::default();
    let tasks: Vec<&Task> = vec![&t1, &t2, &t3];
    let sorted = engine.sort(&tasks, &ctx);
    assert_eq!(sorted[0].id, "T2");
    assert_eq!(sorted[1].id, "T1");
    assert_eq!(sorted[2].id, "T3");
}

#[test]
fn test_rule_engine_multi_layer_tie_breaking() {
    let t1 = make_task("T1", 5000, Some(10000));
    let t2 = make_task("T2", 2000, Some(10000));
    let t3 = make_task("T3", 5000, Some(10000));
    let engine = RuleEngine::new().with_rule(Rule::Edd).with_tie_breaker(Rule::Spt);
    let ctx = SchedulingContext::default();
    let tasks: Vec<&Task> = vec![&t1, &t2, &t3];
    let sorted = engine.sort(&tasks, &ctx);
    assert_eq!(sorted[0].id, "T2");
}

#[test]
fn test_rule_engine_weighted_mode() {
    let t1 = make_task("T1", 5000, Some(20000));
    let t2 = make_task("T2", 2000, Some(5000));
    let engine = RuleEngine::new()
        .with_mode(EvaluationMode::Weighted)
        .with_weighted_rule(Rule::Edd, 500_000)
        .with_weighted_rule(Rule::Spt, 500_000);
    let ctx = SchedulingContext::default();
    let tasks: Vec<&Task> = vec![&t1, &t2];
    let sorted = engine.sort(&tasks, &ctx);
    assert_eq!(sorted[0].id, "T2");
}

#[test]
fn weighted_scores_are_the_blend() {
    let t1 = make_task("T1", 5000, Some(20000));
    let t2 = make_task("T2", 2000, Some(5000));
    let engine = RuleEngine::new()
        .with_mode(EvaluationMode::Weighted)
        .with_weighted_rule(Rule::Edd, 500_000)
        .with_weighted_rule(Rule::Spt, 500_000);
    let ctx = SchedulingContext::default();
    let s1: f64 = engine.evaluate(&t1, &ctx).into_iter().map(val).sum();
    let s2: f64 = engine.evaluate(&t2, &ctx).into_iter().map(val).sum();
    assert_eq!(s1, 12500.0);
    assert_eq!(s2, 3500.0);
}

#[test]
fn weighted_order_matches_weighted_sums() {
    let tasks_owned: Vec<Task> = (0..8)
        .map(|i| make_task(&format!("T{}", i), 1000 * ((i * 7) % 5 + 1), Some(3000 * ((i * 3) % 4 + 1))))
        .collect();
    let tasks: Vec<&Task> = tasks_owned.iter().collect();
    let engine = RuleEngine::new()
        .with_mode(EvaluationMode::Weighted)
        .with_weighted_rule(Rule::Edd, 300_000)
        .with_weighted_rule(Rule::Spt, 700_000);
    let ctx = SchedulingContext::default();
    let sorted = engine.sort(&tasks, &ctx);
    let sum = |t: &Task| 0.3 * val(Edd.evaluate(t, &ctx)) + 0.7 * val(Spt.evaluate(t, &ctx));
    for w in sorted.windows(2) {
        assert!(sum(w[0]) <= sum(w[1]) + 1e-6);
    }
}

#[test]
fn test_rule_engine_select_best() {
    let t1 = make_task("T1", 5000, None);
    let t2 = make_task("T2", 1000, None);
    let engine = RuleEngine::new().with_rule(Rule::Spt);
    let ctx = SchedulingContext::default();
    let tasks: Vec<&Task> = vec![&t1, &t2];
    let best = engine.select_best(&tasks, &ctx);
    assert!(best.is_some());
    assert_eq!(best.unwrap().id, "T2");
}

#[test]
fn test_rule_engine_empty_tasks() {
    let engine = RuleEngine::new().with_rule(Rule::Spt);
    let ctx = SchedulingContext::default();
    let tasks: Vec<&Task> = vec![];
    let sorted = engine.sort(&tasks, &ctx);
    assert!(sorted.is_empty());
}

#[test]
fn engine_without_rules_keeps_input_order() {
    let t1 = make_task("B", 5000, None);
    let t2 = make_task("A", 1000, None);
    let engine = RuleEngine::new().with_final_tie_breaker(TieBreaker::ById);
    let tasks: Vec<&Task> = vec![&t1, &t2];
    let sorted = engine.sort(&tasks, &SchedulingContext::default());
    assert_eq!(sorted[0].id, "B");
}

#[test]
fn test_rule_engine_deterministic_tie_breaker() {
    let t1 = make_task("B", 1000, None);
    let t2 = make_task("A", 1000, None);
    let t3 = make_task("C", 1000, None);
    let engine = RuleEngine::new().with_rule(Rule::Spt).with_final_tie_breaker(TieBreaker::ById);
    let ctx = SchedulingContext::default();
    let tasks: Vec<&Task> = vec![&t1, &t2, &t3];
    let sorted = engine.sort(&tasks, &ctx);
    assert_eq!(sorted[0].id, "A");
    assert_eq!(sorted[1].id, "B");
    assert_eq!(sorted[2].id, "C");
}

#[test]
fn hash_tie_breaker_orders_by_byte_sum() {
    let t1 = make_task("bb", 1000, None);
    let t2 = make_task("c", 1000, None);
    let t3 = make_task("ab", 1000, None);
    let engine = RuleEngine::new().with_rule(Rule::Spt).with_final_tie_breaker(TieBreaker::Random);
    let tasks: Vec<&Task> = vec![&t1, &t2, &t3];
    let sorted = engine.sort(&tasks, &SchedulingContext::default());
    let ids: Vec<&str> = sorted.iter().map(|t| t.id.as_str()).collect();
    assert_eq!(ids, vec!["c", "ab", "bb"]);
}

#[test]
fn ties_keep_input_order_without_final_tie_breaker() {
    let t1 = make_task("B", 1000, None);
    let t2 = make_task("A", 1000, None);
    let engine = RuleEngine::new().with_rule(Rule::Spt);
    let tasks: Vec<&Task> = vec![&t1, &t2];
    let sorted = engine.sort(&tasks, &SchedulingContext::default());
    assert_eq!(sorted[0].id, "B");
}

#[test]
fn test_complex_scenario_with_context() {
    let t1 = make_task("urgent", 3000, Some(5000));
    let t2 = make_task("short", 1000, Some(10000));
    let t3 = make_task("critical", 2000, Some(3000));
    let ctx = SchedulingContext::new(1000)
        .with_remaining_work("urgent", 500)
        .with_remaining_work("short", 1000)
        .with_remaining_work("critical", 2000)
        .with_arrival_time("urgent", 0)
        .with_arrival_time("short", 100)
        .with_arrival_time("critical", 200);
    let engine = RuleEngine::new().with_rule(Rule::Mst).with_tie_breaker(Rule::Fifo);
    let tasks: Vec<&Task> = vec![&t1, &t2, &t3];
    let sorted = engine.sort(&tasks, &ctx);
    assert_eq!(sorted[0].id, "critical");
    assert_eq!(sorted[1].id, "urgent");
    assert_eq!(sorted[2].id, "short");
    assert_eq!(val(Mst.evaluate(&t1, &ctx)), 3500.0);
    assert_eq!(val(Mst.evaluate(&t3, &ctx)), 0.0);
}

#[test]
fn context_lookups() {
    let ctx = SchedulingContext::new(5).with_remaining_work("a", 3).with_remaining_work("a", 4).with_arrival_time("a", 9);
    assert_eq!(ctx.get_remaining_work("a"), 4);
    assert_eq!(ctx.get_remaining_work("b"), 0);
    assert_eq!(ctx.get_arrival_time("a"), Some(9));
    assert_eq!(ctx.get_arrival_time("b"), None);
}

#[test]
fn negative_weight_on_infinite_score_comes_first() {
    let with_deadline = make_task("D", 1000, Some(5000));
    let without = make_task("N", 1000, None);
    let engine = RuleEngine::new().with_mode(EvaluationMode::Weighted).with_weighted_rule(Rule::Edd, -1_000_000);
    let tasks: Vec<&Task> = vec![&with_deadline, &without];
    let sorted = engine.sort(&tasks, &SchedulingContext::default());
    assert_eq!(sorted[0].id, "N");
}

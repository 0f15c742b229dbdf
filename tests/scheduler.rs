use u_ras::models::activity::{Activity, ActivityDuration};
use u_ras::models::constraint::{TransitionMatrix, TransitionMatrixCollection};
use u_ras::models::resource::Resource;
use u_ras::models::schedule::{Schedule, ViolationType};
use u_ras::models::task::Task;
use u_ras::scheduler::simple::{ScheduleRequest, SimpleScheduler};

fn create_test_scenario() -> (Vec<Task>, Vec<Resource>) {
    let tasks = vec![
        Task::new("T1").with_priority(5).with_activity(
            Activity::new("T1-A1", "T1", 1)
                .with_duration(ActivityDuration::fixed(5000))
                .with_resources("machine", vec!["M1".into(), "M2".into()]),
        ),
        Task::new("T2").with_priority(3).with_activity(
            Activity::new("T2-A1", "T2", 1)
                .with_duration(ActivityDuration::fixed(3000))
                .with_resources("machine", vec!["M1".into()]),
        ),
    ];

    let resources = vec![Resource::primary("M1").with_efficiency(1000), Resource::primary("M2").with_efficiency(900)];

    (tasks, resources)
}

#[test]
fn test_simple_scheduling() {
    let (tasks, resources) = create_test_scenario();
    let scheduler = SimpleScheduler::new();

    let schedule = scheduler.schedule(&tasks, &resources, 0);

    assert_eq!(schedule.assignment_count(), 2);
    assert!(schedule.makespan_ms > 0);
}

#[test]
fn test_priority_ordering() {
    let (tasks, resources) = create_test_scenario();
    let scheduler = SimpleScheduler::new();

    let schedule = scheduler.schedule(&tasks, &resources, 0);

    let t1_end = schedule.task_completion_time("T1").unwrap();
    let t2_start = schedule.assignment_for_activity("T2-A1").unwrap().start_ms;
    let t1_start = schedule.assignment_for_activity("T1-A1").unwrap().start_ms;
    assert!(t1_start <= t2_start || t1_end <= t2_start);
}

#[test]
fn test_multiple_activities() {
    let task = Task::new("T1")
        .with_activity(
            Activity::new("T1-A1", "T1", 1)
                .with_duration(ActivityDuration::fixed(3000))
                .with_resources("machine", vec!["M1".into()]),
        )
        .with_activity(
            Activity::new("T1-A2", "T1", 2)
                .with_duration(ActivityDuration::fixed(2000))
                .with_resources("machine", vec!["M1".into()]),
        );

    let resources = vec![Resource::primary("M1")];
    let scheduler = SimpleScheduler::new();

    let schedule = scheduler.schedule(&[task], &resources, 0);

    assert_eq!(schedule.assignment_count(), 2);

    let a1 = schedule.assignment_for_activity("T1-A1").unwrap();
    let a2 = schedule.assignment_for_activity("T1-A2").unwrap();

    assert!(a2.start_ms >= a1.end_ms);
}

#[test]
fn test_empty_input() {
    let scheduler = SimpleScheduler::new();
    let schedule = scheduler.schedule(&[], &[], 0);

    assert_eq!(schedule.assignment_count(), 0);
    assert_eq!(schedule.makespan_ms, 0);
}

#[test]
fn two_activity_task_on_single_machine() {
    let task = Task::new("T1")
        .with_activity(Activity::new("A1", "T1", 1).with_duration(ActivityDuration::fixed(3000)).with_resources("m", vec!["M1".into()]))
        .with_activity(Activity::new("A2", "T1", 2).with_duration(ActivityDuration::fixed(2000)).with_resources("m", vec!["M1".into()]));
    let schedule = SimpleScheduler::new().schedule(&[task], &[Resource::primary("M1")], 0);
    let a1 = schedule.assignment_for_activity("A1").unwrap();
    let a2 = schedule.assignment_for_activity("A2").unwrap();
    assert_eq!((a1.start_ms, a1.end_ms), (0, 3000));
    assert_eq!((a2.start_ms, a2.end_ms), (3000, 5000));
    assert_eq!(schedule.makespan_ms, 5000);
}

#[test]
fn activities_follow_sequence_numbers() {
    let task = Task::new("T1")
        .with_activity(Activity::new("second", "T1", 2).with_duration(ActivityDuration::fixed(1000)).with_resources("m", vec!["M1".into()]))
        .with_activity(Activity::new("first", "T1", 1).with_duration(ActivityDuration::fixed(500)).with_resources("m", vec!["M1".into()]));
    let schedule = SimpleScheduler::new().schedule(&[task], &[Resource::primary("M1")], 0);
    assert_eq!(schedule.assignments[0].activity_id, "first");
    assert_eq!(schedule.assignments[1].start_ms, 500);
}

#[test]
fn release_time_delays_the_task() {
    let task = Task::new("T1").with_release_time(4000).with_activity(
        Activity::new("A1", "T1", 1).with_duration(ActivityDuration::fixed(1000)).with_resources("m", vec!["M1".into()]),
    );
    let schedule = SimpleScheduler::new().schedule(&[task], &[Resource::primary("M1")], 1000);
    assert_eq!(schedule.assignments[0].start_ms, 4000);
    assert_eq!(schedule.makespan_ms, 5000);
}

#[test]
fn earliest_candidate_wins_and_ties_go_to_the_first() {
    let tasks = vec![
        Task::new("T1").with_activity(Activity::new("A", "T1", 1).with_duration(ActivityDuration::fixed(1000)).with_resources("m", vec!["M1".into(), "M2".into()])),
        Task::new("T2").with_activity(Activity::new("B", "T2", 1).with_duration(ActivityDuration::fixed(1000)).with_resources("m", vec!["M1".into(), "M2".into()])),
    ];
    let resources = vec![Resource::primary("M1"), Resource::primary("M2")];
    let schedule = SimpleScheduler::new().schedule(&tasks, &resources, 0);
    assert_eq!(schedule.assignment_for_activity("A").unwrap().resource_id, "M1");
    let b = schedule.assignment_for_activity("B").unwrap();
    assert_eq!(b.resource_id, "M2");
    assert_eq!(b.start_ms, 0);
}

#[test]
fn unknown_or_missing_candidates_are_skipped() {
    let tasks = vec![Task::new("T1")
        .with_activity(Activity::new("A", "T1", 1).with_duration(ActivityDuration::fixed(1000)))
        .with_activity(Activity::new("B", "T1", 2).with_duration(ActivityDuration::fixed(1000)).with_resources("m", vec!["X".into()]))];
    let schedule = SimpleScheduler::new().schedule(&tasks, &[Resource::primary("M1")], 0);
    assert_eq!(schedule.assignment_count(), 0);
}

#[test]
fn setup_time_from_transition_matrix() {
    let tasks = vec![
        Task::new("T1").with_priority(2).with_category("red").with_activity(
            Activity::new("A", "T1", 1).with_duration(ActivityDuration::fixed(1000)).with_resources("m", vec!["M1".into()]),
        ),
        Task::new("T2").with_priority(1).with_category("blue").with_activity(
            Activity::new("B", "T2", 1).with_duration(ActivityDuration::fixed(1000)).with_resources("m", vec!["M1".into()]),
        ),
    ];
    let mut m = TransitionMatrix::new("m", "M1");
    m.set_transition("red", "blue", 500);
    let mut c = TransitionMatrixCollection::new();
    c.add(m);
    let schedule = SimpleScheduler::new().with_transition_matrices(c).schedule(&tasks, &[Resource::primary("M1")], 0);
    let a = schedule.assignment_for_activity("A").unwrap();
    let b = schedule.assignment_for_activity("B").unwrap();
    assert_eq!(a.setup_ms, 0);
    assert_eq!(b.setup_ms, 500);
    assert_eq!((b.start_ms, b.end_ms), (1000, 2500));
}

#[test]
fn schedule_request_uses_its_matrices() {
    let tasks = vec![
        Task::new("T1").with_category("x").with_activity(Activity::new("A", "T1", 1).with_duration(ActivityDuration::fixed(10)).with_resources("m", vec!["M1".into()])),
        Task::new("T2").with_category("y").with_activity(Activity::new("B", "T2", 1).with_duration(ActivityDuration::fixed(10)).with_resources("m", vec!["M1".into()])),
    ];
    let mut m = TransitionMatrix::new("m", "M1").with_default(7);
    m.set_transition("x", "x", 0);
    let mut c = TransitionMatrixCollection::new();
    c.add(m);
    let request = ScheduleRequest::new(tasks, vec![Resource::primary("M1")]).with_start_time(100).with_transition_matrices(c);
    let schedule = SimpleScheduler::new().schedule_request(&request);
    let b = schedule.assignment_for_activity("B").unwrap();
    assert_eq!(b.setup_ms, 7);
    assert_eq!(b.end_ms, 127);
}

#[test]
fn overflowing_end_is_recorded_as_violation() {
    let task = Task::new("T1").with_activity(
        Activity::new("A", "T1", 1).with_duration(ActivityDuration::fixed(i64::MAX)).with_resources("m", vec!["M1".into()]),
    );
    let schedule = SimpleScheduler::new().schedule(&[task], &[Resource::primary("M1")], 10);
    assert_eq!(schedule.assignment_count(), 0);
    assert_eq!(schedule.violations.len(), 1);
    assert_eq!(schedule.violations[0].violation_type, ViolationType::Custom("TIME_OVERFLOW".to_string()));
}

fn mixed_scenario() -> (Vec<Task>, Vec<Resource>) {
    let mut tasks = Vec::new();
    for t in 0..6 {
        let id = format!("T{}", t);
        let mut task = Task::new(&id).with_priority((t % 3) as i32).with_category(if t % 2 == 0 { "a" } else { "b" });
        for k in 0..3 {
            let cands: Vec<String> = if (t + k) % 2 == 0 { vec!["M1".into(), "M2".into()] } else { vec!["M2".into(), "M3".into()] };
            task = task.with_activity(
                Activity::new(&format!("{}-{}", id, k), &id, (k + 1) as i32)
                    .with_duration(ActivityDuration::fixed(1000 * (1 + ((t + k) % 4) as i64)))
                    .with_resources("m", cands),
            );
        }
        tasks.push(task);
    }
    (tasks, vec![Resource::primary("M1"), Resource::primary("M2"), Resource::primary("M3")])
}

fn check_invariants(schedule: &Schedule) {
    let a = &schedule.assignments;
    for i in 0..a.len() {
        for j in 0..a.len() {
            if i != j && a[i].resource_id == a[j].resource_id {
                assert!(a[i].end_ms <= a[j].start_ms || a[j].end_ms <= a[i].start_ms);
            }
            if i < j && a[i].task_id == a[j].task_id {
                assert!(a[i].end_ms <= a[j].start_ms);
            }
        }
    }
    let max_end = a.iter().map(|x| x.end_ms).max().unwrap_or(0);
    assert_eq!(schedule.makespan_ms, max_end);
}

#[test]
fn schedule_respects_exclusivity_order_and_makespan() {
    let (tasks, resources) = mixed_scenario();
    let mut m = TransitionMatrix::new("m", "M2").with_default(250);
    m.set_transition("a", "a", 0);
    let mut c = TransitionMatrixCollection::new();
    c.add(m);
    let schedule = SimpleScheduler::new().with_transition_matrices(c).schedule(&tasks, &resources, 0);
    assert_eq!(schedule.assignment_count(), 18);
    check_invariants(&schedule);
}

#[test]
fn schedule_is_deterministic() {
    let (tasks, resources) = mixed_scenario();
    let s1 = SimpleScheduler::new().schedule(&tasks, &resources, 0);
    let s2 = SimpleScheduler::new().schedule(&tasks, &resources, 0);
    assert_eq!(s1.assignments.len(), s2.assignments.len());
    for (a, b) in s1.assignments.iter().zip(s2.assignments.iter()) {
        assert_eq!(
            (&a.activity_id, &a.task_id, &a.resource_id, a.start_ms, a.end_ms, a.setup_ms),
            (&b.activity_id, &b.task_id, &b.resource_id, b.start_ms, b.end_ms, b.setup_ms)
        );
    }
    assert_eq!(s1.makespan_ms, s2.makespan_ms);
}

use u_ras::models::schedule::Assignment;
use u_ras::scheduler::kpi::ScheduleKpi;

#[test]
fn test_kpi_calculation() {
    let mut schedule = Schedule::new();
    schedule.add_assignment(Assignment::new("A1", "T1", "R1", 0, 5000));
    schedule.add_assignment(Assignment::new("A2", "T2", "R1", 5000, 8000));
    let tasks = vec![
        Task::new("T1").with_activity(Activity::new("A1", "T1", 1).with_duration(ActivityDuration::fixed(5000))),
        Task::new("T2").with_activity(Activity::new("A2", "T2", 1).with_duration(ActivityDuration::fixed(3000))),
    ];
    let kpi = ScheduleKpi::calculate(&schedule, &tasks);
    assert_eq!(kpi.makespan_ms, 8000);
    assert_eq!(kpi.on_time_count, kpi.completed_count);
    assert_eq!(kpi.completed_count, 2);
    assert_eq!(kpi.total_flow_time_ms, 13000);
}

#[test]
fn test_tardiness_calculation() {
    let mut schedule = Schedule::new();
    schedule.add_assignment(Assignment::new("A1", "T1", "R1", 0, 10000));
    let task = Task::new("T1").with_deadline(5000).with_activity(Activity::new("A1", "T1", 1));
    let kpi = ScheduleKpi::calculate(&schedule, &[task]);
    assert_eq!(kpi.total_tardiness_ms, 5000);
    assert_eq!(kpi.max_tardiness_ms, 5000);
    assert_eq!(kpi.on_time_count, 0);
}

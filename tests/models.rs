use u_ras::models::activity::{Activity, ActivityDuration, ResourceRequirement};
use u_ras::models::calendar::{Calendar, TimeWindow};
use u_ras::models::constraint::{Constraint, TransitionMatrix, TransitionMatrixCollection};
use u_ras::models::resource::{Resource, ResourceType};
use u_ras::models::schedule::{Assignment, Schedule, Violation, ViolationType};
use u_ras::models::task::Task;
use u_ras::models::time_constraints::{PertEstimate, ViolationSeverity};

#[test]
fn test_activity_creation() {
    let activity = Activity::new("A1", "T1", 1)
        .with_time(1000, 5000, 500)
        .with_resources("machine", vec!["M1".into(), "M2".into()]);

    assert_eq!(activity.id, "A1");
    assert_eq!(activity.duration.total_ms(), 6500);
    assert_eq!(activity.candidate_resources(), vec!["M1", "M2"]);
}

#[test]
fn test_duration() {
    let duration = ActivityDuration::new(1000, 5000, 500);
    assert_eq!(duration.total_ms(), 6500);

    let fixed = ActivityDuration::fixed(3000);
    assert_eq!(fixed.total_ms(), 3000);
}

#[test]
fn test_resource_requirement() {
    let req = ResourceRequirement::new("equipment")
        .with_quantity(2)
        .with_candidates(vec!["E1".into(), "E2".into()])
        .with_skill("welding");

    assert_eq!(req.quantity, 2);
    assert_eq!(req.candidates.len(), 2);
    assert_eq!(req.required_skills, vec!["welding"]);
}

#[test]
fn candidates_span_all_requirements() {
    let activity = Activity::new("A1", "T1", 1)
        .with_requirement(ResourceRequirement::new("machine").with_candidate("M1"))
        .with_resources("tool", vec!["X1".into(), "X2".into()])
        .with_requirement(ResourceRequirement::new("empty"));
    assert_eq!(activity.candidate_resources(), vec!["M1", "X1", "X2"]);
}

#[test]
fn test_time_window() {
    let window = TimeWindow::new(1000, 2000);

    assert_eq!(window.duration_ms(), 1000);
    assert!(window.contains(1500));
    assert!(!window.contains(2500));
}

#[test]
fn test_calendar_availability() {
    let calendar = Calendar::new("cal1")
        .with_window(0, 8 * 3600 * 1000)
        .with_window(9 * 3600 * 1000, 17 * 3600 * 1000);

    assert!(calendar.is_working_time(4 * 3600 * 1000));
    assert!(!calendar.is_working_time(8 * 3600 * 1000 + 1000));
    assert!(calendar.is_working_time(12 * 3600 * 1000));
}

#[test]
fn test_blocked_periods() {
    let calendar = Calendar::always_available("cal1").with_blocked(5000, 10000);

    assert!(calendar.is_working_time(3000));
    assert!(!calendar.is_working_time(7000));
    assert!(calendar.is_working_time(15000));
}

#[test]
fn next_available_skips_to_window_start() {
    let calendar = Calendar::new("c").with_window(1000, 2000).with_window(5000, 6000);
    assert_eq!(calendar.next_available_time(1500), 1500);
    assert_eq!(calendar.next_available_time(2500), 5000);
    assert_eq!(calendar.next_available_time(0), 1000);
}

#[test]
fn next_available_skips_blocked_period() {
    let calendar = Calendar::new("c").with_window(0, 10000).with_blocked(2000, 4000);
    assert_eq!(calendar.next_available_time(2500), 4000);
    assert!(calendar.is_working_time(4000));
}

#[test]
fn next_available_without_any_working_time_is_the_input() {
    let calendar = Calendar::new("c").with_window(0, 1000);
    assert_eq!(calendar.next_available_time(5000), 5000);
    let empty = Calendar::new("e");
    assert_eq!(empty.next_available_time(42), 42);
}

#[test]
fn available_time_between_sums_overlaps() {
    let calendar = Calendar::new("c").with_window(0, 1000).with_window(2000, 3000);
    assert_eq!(calendar.available_time_between(500, 2500), 1000);
    let empty = Calendar::new("e");
    assert_eq!(empty.available_time_between(100, 400), 300);
}

#[test]
fn test_constraints() {
    let prec = Constraint::precedence("A1", "A2");
    let cap = Constraint::capacity("R1", 5);

    match prec {
        Constraint::Precedence { before, after, .. } => {
            assert_eq!(before, "A1");
            assert_eq!(after, "A2");
        }
        _ => panic!("Wrong constraint type"),
    }

    match cap {
        Constraint::Capacity { max_capacity, .. } => {
            assert_eq!(max_capacity, 5);
        }
        _ => panic!("Wrong constraint type"),
    }
}

#[test]
fn constraint_test_transition_matrix() {
    let mut matrix = TransitionMatrix::new("setup", "M1").with_default(1000);
    matrix.set_transition("A", "B", 5000);
    matrix.set_transition("B", "A", 3000);

    assert_eq!(matrix.get_transition("A", "B"), 5000);
    assert_eq!(matrix.get_transition("B", "A"), 3000);
    assert_eq!(matrix.get_transition("A", "C"), 1000);
}

#[test]
fn transition_set_twice_keeps_latest() {
    let mut matrix = TransitionMatrix::new("setup", "M1");
    matrix.set_transition("A", "B", 5000);
    matrix.set_transition("A", "B", 700);
    assert_eq!(matrix.get_transition("A", "B"), 700);
    assert_eq!(matrix.get_transition("B", "A"), 0);
}

#[test]
fn collection_uses_the_resource_matrix() {
    let mut m1 = TransitionMatrix::new("m1", "M1");
    m1.set_transition("red", "blue", 400);
    let mut c = TransitionMatrixCollection::new();
    c.add(m1);
    assert_eq!(c.get_transition_time("M1", "red", "blue"), 400);
    assert_eq!(c.get_transition_time("M2", "red", "blue"), 0);
    assert!(c.get_for_resource("M1").is_some());
    assert!(c.get_for_resource("M2").is_none());
}

#[test]
fn test_resource_creation() {
    let resource = Resource::primary("M1")
        .with_name("Machine 1")
        .with_efficiency(900)
        .with_capacity(2);

    assert_eq!(resource.id, "M1");
    assert_eq!(resource.efficiency, 900);
    assert_eq!(resource.capacity, 2);
}

#[test]
fn test_resource_skills() {
    let resource = Resource::human("W1")
        .with_skill("welding", 800)
        .with_skill("assembly", 600);

    assert!(resource.has_skill("welding"));
    assert!(!resource.has_skill("painting"));
    assert_eq!(resource.skill_level("welding"), 800);
    assert_eq!(resource.skill_level("unknown"), 0);
}

#[test]
fn skill_level_is_clamped() {
    let resource = Resource::human("W1").with_skill("a", 1500).with_skill("b", -3);
    assert_eq!(resource.skill_level("a"), 1000);
    assert_eq!(resource.skill_level("b"), 0);
}

#[test]
fn test_resource_types() {
    let primary = Resource::primary("P1");
    let human = Resource::human("H1");
    let secondary = Resource::secondary("S1");

    assert_eq!(primary.resource_type, ResourceType::Primary);
    assert_eq!(human.resource_type, ResourceType::Human);
    assert_eq!(secondary.resource_type, ResourceType::Secondary);
}

#[test]
fn resource_availability_follows_calendar() {
    let r = Resource::primary("M1").with_calendar(Calendar::new("c").with_window(0, 100));
    assert!(r.is_available_at(50));
    assert!(!r.is_available_at(150));
    assert!(Resource::primary("M2").is_available_at(150));
}

#[test]
fn test_schedule_creation() {
    let mut schedule = Schedule::new();

    schedule.add_assignment(Assignment::new("A1", "T1", "R1", 0, 5000));
    schedule.add_assignment(Assignment::new("A2", "T1", "R1", 5000, 8000));

    assert_eq!(schedule.makespan_ms, 8000);
    assert_eq!(schedule.assignment_count(), 2);
    assert!(schedule.is_valid());
}

#[test]
fn test_violations() {
    let mut schedule = Schedule::new();
    schedule.add_violation(Violation::deadline_miss("T1", "Late by 1 hour"));

    assert!(!schedule.is_valid());
    assert_eq!(schedule.violations.len(), 1);
}

#[test]
fn schedule_queries() {
    let mut schedule = Schedule::new();
    schedule.add_assignment(Assignment::new("A1", "T1", "R1", 0, 5000).with_setup(1000));
    schedule.add_assignment(Assignment::new("A2", "T2", "R2", 0, 3000));
    schedule.add_assignment(Assignment::new("A3", "T1", "R2", 5000, 9000));
    assert_eq!(schedule.assignments_for_task("T1").len(), 2);
    assert_eq!(schedule.assignments_for_resource("R2").len(), 2);
    assert_eq!(schedule.task_completion_time("T1"), Some(9000));
    assert_eq!(schedule.task_completion_time("T9"), None);
    let a1 = schedule.assignment_for_activity("A1").unwrap();
    assert_eq!(a1.duration_ms(), 5000);
    assert_eq!(a1.process_ms(), 4000);
    assert!(schedule.assignment_for_activity("A9").is_none());
    assert_eq!(schedule.makespan_ms, 9000);
}

#[test]
fn empty_schedule_has_zero_makespan() {
    let schedule = Schedule::new();
    assert_eq!(schedule.makespan_ms, 0);
    assert_eq!(schedule.assignment_count(), 0);
}

#[test]
fn capacity_violation_fields() {
    let v = Violation::capacity_exceeded("M1", "too many");
    assert_eq!(v.violation_type, ViolationType::CapacityExceeded);
    assert_eq!(v.severity, 90);
    assert_eq!(Violation::deadline_miss("T1", "late").severity, 80);
}

#[test]
fn test_task_creation() {
    let task = Task::new("T1")
        .with_name("Test Task")
        .with_priority(5)
        .with_category("urgent");

    assert_eq!(task.id, "T1");
    assert_eq!(task.name, "Test Task");
    assert_eq!(task.priority, 5);
}

#[test]
fn test_task_with_activities() {
    let task = Task::new("T1")
        .with_activity(Activity::new("A1", "T1", 1).with_duration(ActivityDuration::fixed(5000)))
        .with_activity(Activity::new("A2", "T1", 2).with_duration(ActivityDuration::fixed(3000)));

    assert_eq!(task.activities.len(), 2);
    assert_eq!(task.total_duration_ms(), 8000);
}

#[test]
fn test_violation_severity_ordering() {
    assert!(ViolationSeverity::Critical > ViolationSeverity::Major);
    assert!(ViolationSeverity::Major > ViolationSeverity::Minor);
    assert!(ViolationSeverity::Minor > ViolationSeverity::Info);
}

#[test]
fn pert_mean_and_symmetric() {
    let pert = PertEstimate::new(4000, 6000, 14000);
    assert_eq!(pert.p50(), 7000);
    let s = PertEstimate::symmetric(10000, 2000);
    assert_eq!(s.optimistic_ms, 8000);
    assert_eq!(s.pessimistic_ms, 12000);
    assert_eq!(PertEstimate::new(-7, 0, 0).p50(), -1);
}

use u_ras::models::time_constraints::TimeWindow as WindowConstraint;

#[test]
fn test_time_window_basic() {
    let window = WindowConstraint::bounded(1000, 5000);
    assert!(window.check_violation(1000, 4000).is_none());
    let v = window.check_violation(500, 4000).unwrap();
    assert_eq!(v.early_ms, 500);
    assert!(v.is_early());
    let v = window.check_violation(2000, 6000).unwrap();
    assert_eq!(v.late_ms, 1000);
    assert!(v.is_tardy());
}

#[test]
fn test_time_window_hard_vs_soft() {
    let hard = WindowConstraint::deadline(5000).hard();
    let soft = WindowConstraint::deadline(5000).soft(2000);
    let vh = hard.check_violation(0, 6000).unwrap();
    let vs = soft.check_violation(0, 6000).unwrap();
    assert_eq!(vh.severity, ViolationSeverity::Critical);
    assert_eq!(vs.severity, ViolationSeverity::Minor);
    assert_eq!(vs.penalty, 2_000_000);
    assert_eq!(vs.total_violation_ms(), 1000);
}

use u_ras::models::time_constraints::{ConstraintViolation, ViolationType as ConstraintKind};

#[test]
fn test_constraint_violation_creation() {
    let tw_v = ConstraintViolation::time_window("OP-001", 5000, ViolationSeverity::Minor, 500_000);
    assert_eq!(tw_v.violation_type, ConstraintKind::TimeWindow);
    assert!(tw_v.message.contains("OP-001"));

    let cap_v = ConstraintViolation::capacity_exceeded("M-001", 3);
    assert_eq!(cap_v.violation_type, ConstraintKind::CapacityExceeded);
    assert_eq!(cap_v.severity, ViolationSeverity::Critical);
}

#[test]
fn violation_messages_render_numbers() {
    assert_eq!(ConstraintViolation::time_window("A", 5000, ViolationSeverity::Minor, 1).message, "Activity A is 5000 ms late");
    let p = ConstraintViolation::precedence_violated("A", "B", -20);
    assert_eq!(p.message, "Activity A must complete before B (overlap: -20 ms)");
    assert_eq!(p.penalty, -200_000);
    assert_eq!(ConstraintViolation::capacity_exceeded("M", 3).penalty, 3_000_000);
}

#[test]
fn makespan_is_latest_end_even_before_epoch() {
    let mut schedule = Schedule::new();
    schedule.add_assignment(Assignment::new("A1", "T1", "R1", -10000, -9000));
    assert_eq!(schedule.makespan_ms, -9000);
    schedule.add_assignment(Assignment::new("A2", "T1", "R1", -9000, -9500));
    assert_eq!(schedule.makespan_ms, -9000);
}

#[test]
fn decimal_text_of_extremes() {
    let p = ConstraintViolation::precedence_violated("A", "B", i64::MIN);
    assert_eq!(p.message, format!("Activity A must complete before B (overlap: {} ms)", i64::MIN));
    let q = ConstraintViolation::time_window("X", 0, ViolationSeverity::Info, 0);
    assert_eq!(q.message, "Activity X is 0 ms late");
}

use u_ras::cp::model::TransitionMatrix;
use u_ras::cp::solver::{SimpleCpSolver, SolverConfig};
use u_ras::cp::variables::{IntervalVar, TimeVar};

#[test]
fn model_test_transition_matrix() {
    let mut matrix = TransitionMatrix::new(vec!["A".into(), "B".into(), "C".into()]);

    matrix.set_time("A", "B", 10_000);
    matrix.set_time("B", "C", 5_000);

    assert_eq!(matrix.get_time("A", "B"), 10_000);
    assert_eq!(matrix.get_time("B", "C"), 5_000);
    assert_eq!(matrix.get_time("A", "A"), 0);
}

#[test]
fn unknown_types_read_zero() {
    let mut matrix = TransitionMatrix::new(vec!["A".into()]);
    matrix.set_time("A", "Z", 3);
    assert_eq!(matrix.get_time("A", "Z"), 0);
    assert_eq!(matrix.get_time("A", "A"), 0);
}

#[test]
fn test_interval_var_creation() {
    let var = IntervalVar::new("op1", 0, 100, 50, 200);
    assert_eq!(var.name, "op1");
    assert_eq!(var.start.min, 0);
    assert_eq!(var.start.max, 100);
    assert_eq!(var.duration.fixed, Some(50));
}

#[test]
fn test_optional_interval() {
    let var = IntervalVar::new("op1", 0, 100, 50, 200).as_optional("op1_present");
    assert!(var.is_optional);
    assert!(var.presence.is_some());
}

#[test]
fn variables_and_defaults() {
    let var = IntervalVar::new("op", 10, 20, 5, 40).with_variable_duration(3, 9);
    assert_eq!(var.end.min, 15);
    assert_eq!(var.duration.min, 3);
    assert_eq!(var.duration.fixed, None);
    assert!(TimeVar::fixed(7).is_fixed());
    assert!(!TimeVar::new(0, 1).is_fixed());
    assert_eq!(SolverConfig::default().num_workers, 4);
    let _ = SimpleCpSolver::new();
}

use u_ras::cp::model::CpModel;
use u_ras::cp::solver::{CpSolution, CpSolver, IntervalSolution, SolverStatus};

#[test]
fn test_cp_model_creation() {
    let mut model = CpModel::new("test", 1_000_000);
    let op1 = IntervalVar::new("op1", 0, 100_000, 50_000, 200_000);
    let op2 = IntervalVar::new("op2", 0, 100_000, 30_000, 200_000);
    model.add_interval(op1);
    model.add_interval(op2);
    model.add_no_overlap(vec!["op1".into(), "op2".into()]);
    model.minimize_makespan();
    assert_eq!(model.intervals.len(), 2);
    assert_eq!(model.constraints.len(), 1);
    assert!(model.objective.is_some());
    assert!(model.validate().is_ok());
}

#[test]
fn test_precedence_constraint() {
    let mut model = CpModel::new("test", 1_000_000);
    model.add_interval(IntervalVar::new("op1", 0, 100_000, 50_000, 200_000));
    model.add_interval(IntervalVar::new("op2", 0, 100_000, 30_000, 200_000));
    model.add_precedence("op1".into(), "op2".into(), 0);
    assert!(model.validate().is_ok());
}

#[test]
fn test_validation_error() {
    let mut model = CpModel::new("test", 1_000_000);
    model.add_no_overlap(vec!["undefined".into()]);
    assert!(model.validate().is_err());
    assert_eq!(model.validate(), Err("Undefined interval: undefined".to_string()));
}

#[test]
fn cumulative_needs_one_demand_per_interval() {
    let mut model = CpModel::new("test", 100);
    model.add_interval(IntervalVar::new("a", 0, 10, 5, 20));
    model.add_cumulative(vec!["a".into()], vec![1, 2], 3);
    assert!(model.validate().is_err());
}

#[test]
fn adding_an_interval_twice_replaces_it() {
    let mut model = CpModel::new("test", 100);
    model.add_interval(IntervalVar::new("a", 0, 10, 5, 20));
    model.add_interval(IntervalVar::new("a", 3, 10, 5, 20));
    assert_eq!(model.intervals.len(), 1);
    assert_eq!(model.intervals[0].start.min, 3);
}

#[test]
fn test_simple_solver() {
    let mut model = CpModel::new("test", 1_000_000);
    model.add_interval(IntervalVar::new("op1", 0, 100_000, 50_000, 200_000));
    model.add_interval(IntervalVar::new("op2", 0, 100_000, 30_000, 200_000));
    model.minimize_makespan();
    let solver = SimpleCpSolver::new();
    let solution = solver.solve(&model, &SolverConfig::default());
    assert!(solution.is_solution_found());
    assert_eq!(solution.intervals.len(), 2);
    assert_eq!(solution.objective_value, Some(50_000));
}

#[test]
fn test_solution_makespan() {
    let mut solution = CpSolution::empty(SolverStatus::Feasible);
    solution.intervals.push(("op1".into(), IntervalSolution { start: 0, end: 50_000, duration: 50_000, is_present: true }));
    solution.intervals.push(("op2".into(), IntervalSolution { start: 10_000, end: 80_000, duration: 70_000, is_present: true }));
    assert_eq!(solution.makespan(), 80_000);
}

#[test]
fn test_invalid_model() {
    let mut model = CpModel::new("test", 1_000_000);
    model.add_no_overlap(vec!["undefined".into()]);
    let solver = SimpleCpSolver::new();
    let solution = solver.solve(&model, &SolverConfig::default());
    assert_eq!(solution.status, SolverStatus::ModelInvalid);
}

//! Solver outcomes and settings of a constraint-programming formulation.
use vstd::prelude::*;
use crate::cp::model::CpModel;
use crate::cp::variables::IntervalVar;

verus! {

/// Outcome of a solver run.
#[derive(Debug, Clone, Copy, PartialEq, Eq)]
pub enum SolverStatus {
    Optimal,
    Feasible,
    Infeasible,
    ModelInvalid,
    Timeout,
    Unknown,
}

/// Value of one interval in a solution.
#[derive(Debug, Clone, Copy, PartialEq, Eq)]
pub struct IntervalSolution {
    pub start: i64,
    pub end: i64,
    pub duration: i64,
    pub is_present: bool,
}

/// Limits and options of a solver run.
#[derive(Debug, Clone, Copy, PartialEq, Eq)]
pub struct SolverConfig {
    pub time_limit_ms: i64,
    pub max_nodes: u64,
    pub num_workers: usize,
    pub log_search: bool,
    pub stop_after_first: bool,
}

impl Default for SolverConfig {
    fn default() -> (r: Self)
        ensures
            r == (SolverConfig { time_limit_ms: 60_000, max_nodes: 1_000_000, num_workers: 4, log_search: false, stop_after_first: false }),
    {
        SolverConfig { time_limit_ms: 60_000, max_nodes: 1_000_000, num_workers: 4, log_search: false, stop_after_first: false }
    }
}

/// What a solver run found. The objective value is an integer number of
/// milliseconds for the makespan objective.
#[derive(Debug, Clone)]
pub struct CpSolution {
    pub status: SolverStatus,
    pub objective_value: Option<i64>,
    /// Values of the interval variables, by name.
    pub intervals: Vec<(String, IntervalSolution)>,
    pub int_vars: Vec<(String, i64)>,
    pub bool_vars: Vec<(String, bool)>,
    pub solve_time_ms: i64,
    pub num_nodes: u64,
}

/// The latest end of the present intervals, and 0 when none is later.
pub open spec fn latest_present_end(s: Seq<(String, IntervalSolution)>) -> int
    decreases s.len(),
{
    if s.len() == 0 {
        0
    } else {
        let m = latest_present_end(s.drop_last());
        let x = s.last().1;
        if x.is_present && x.end > m { x.end as int } else { m }
    }
}

impl CpSolution {
    /// A solution with the status and no values.
    pub fn empty(status: SolverStatus) -> (r: Self)
        ensures
            r.status == status,
            r.objective_value is None,
            r.intervals@.len() == 0,
            r.int_vars@.len() == 0,
            r.bool_vars@.len() == 0,
            r.solve_time_ms == 0,
            r.num_nodes == 0,
    {
        CpSolution {
            status,
            objective_value: None,
            intervals: Vec::new(),
            int_vars: Vec::new(),
            bool_vars: Vec::new(),
            solve_time_ms: 0,
            num_nodes: 0,
        }
    }

    /// Whether the solver found an optimal or feasible solution.
    pub fn is_solution_found(&self) -> (r: bool)
        ensures
            r == (self.status == SolverStatus::Optimal || self.status == SolverStatus::Feasible),
    {
        match self.status {
            SolverStatus::Optimal | SolverStatus::Feasible => true,
            _ => false,
        }
    }

    /// The latest end of a present interval, 0 if there is none.
    pub fn makespan(&self) -> (r: i64)
        ensures
            r == latest_present_end(self.intervals@),
    {
        let mut m: i64 = 0;
        let mut i: usize = 0;
        while i < self.intervals.len()
            invariant
                i <= self.intervals@.len(),
                m == latest_present_end(self.intervals@.subrange(0, i as int)),
            decreases self.intervals@.len() - i,
        {
            proof {
                assert(self.intervals@.subrange(0, i + 1).drop_last() =~= self.intervals@.subrange(0, i as int));
            }
            let x = self.intervals[i].1;
            if x.is_present && x.end > m {
                m = x.end;
            }
            i += 1;
        }
        proof {
            assert(self.intervals@.subrange(0, i as int) =~= self.intervals@);
        }
        m
    }
}

/// A solver of models; implementations decide how they search.
pub trait CpSolver {
    fn solve(&self, model: &CpModel, config: &SolverConfig) -> CpSolution;
}

/// The value the placeholder solver gives an interval: its earliest start,
/// its fixed (else least) duration, and the end they give, kept within 64
/// bits.
pub open spec fn earliest_value(v: IntervalVar) -> IntervalSolution {
    let d = match v.duration.fixed {
        Some(f) => f,
        None => v.duration.min,
    };
    let e = v.start.min as int + d as int;
    IntervalSolution {
        start: v.start.min,
        end: if e > i64::MAX { i64::MAX } else if e < i64::MIN { i64::MIN } else { e as i64 },
        duration: d,
        is_present: true,
    }
}

/// A placeholder solver: each interval at its earliest start, no search.
#[derive(Debug, Clone, Copy)]
pub struct SimpleCpSolver;

impl SimpleCpSolver {
    pub fn new() -> (r: Self) {
        SimpleCpSolver
    }

    /// `ModelInvalid` for an inconsistent model; otherwise a feasible-marked
    /// solution placing every interval at its earliest start, with the
    /// makespan as objective value.
    pub fn solve_model(&self, model: &CpModel, config: &SolverConfig) -> (r: CpSolution)
        ensures
            !model.consistent() ==> r.status == SolverStatus::ModelInvalid && r.intervals@.len() == 0,
            model.consistent() ==> {
                &&& r.status == SolverStatus::Feasible
                &&& r.intervals@.len() == model.intervals@.len()
                &&& forall|i: int| 0 <= i < r.intervals@.len() ==> (#[trigger] r.intervals@[i]).0@ == model.intervals@[i].name@
                    && r.intervals@[i].1 == earliest_value(model.intervals@[i])
                &&& r.objective_value == Some(latest_present_end(r.intervals@) as i64)
            },
    {
        if model.validate().is_err() {
            return CpSolution::empty(SolverStatus::ModelInvalid);
        }
        let mut solution = CpSolution::empty(SolverStatus::Feasible);
        let mut i: usize = 0;
        while i < model.intervals.len()
            invariant
                i <= model.intervals@.len(),
                solution.status == SolverStatus::Feasible,
                solution.intervals@.len() == i,
                forall|k: int| 0 <= k < i ==> (#[trigger] solution.intervals@[k]).0@ == model.intervals@[k].name@
                    && solution.intervals@[k].1 == earliest_value(model.intervals@[k]),
            decreases model.intervals@.len() - i,
        {
            let v = &model.intervals[i];
            let start = v.start.min;
            let duration = match v.duration.fixed {
                Some(f) => f,
                None => v.duration.min,
            };
            let e: i128 = start as i128 + duration as i128;
            let end: i64 = if e > i64::MAX as i128 {
                i64::MAX
            } else if e < i64::MIN as i128 {
                i64::MIN
            } else {
                e as i64
            };
            solution.intervals.push((v.name.clone(), IntervalSolution { start, end, duration, is_present: true }));
            i += 1;
        }
        let m = solution.makespan();
        solution.objective_value = Some(m);
        solution
    }
}

impl CpSolver for SimpleCpSolver {
    fn solve(&self, model: &CpModel, config: &SolverConfig) -> CpSolution {
        self.solve_model(model, config)
    }
}

} // verus!

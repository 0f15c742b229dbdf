//! Integer figures of a schedule's quality: tardiness, punctuality and flow.
use vstd::prelude::*;
use crate::models::schedule::{Schedule, latest_end};
use crate::models::task::Task;

verus! {

/// How late the task completes in the schedule; 0 when on time, without
/// deadline or not scheduled.
pub open spec fn tardiness(s: Seq<crate::models::schedule::Assignment>, t: Task) -> int {
    match (latest_end(s, t.id@), t.deadline) {
        (Some(c), Some(d)) => if c > d { c - d } else { 0 },
        _ => 0,
    }
}

/// The task is scheduled and completes by its deadline, if it has one.
pub open spec fn on_time(s: Seq<crate::models::schedule::Assignment>, t: Task) -> bool {
    latest_end(s, t.id@) is Some && tardiness(s, t) == 0
}

/// Completion less release time (0 without one), for a scheduled task.
pub open spec fn flow_time(s: Seq<crate::models::schedule::Assignment>, t: Task) -> int {
    match latest_end(s, t.id@) {
        Some(c) => c - match t.release_time {
            Some(r) => r as int,
            None => 0,
        },
        None => 0,
    }
}

/// The figures summed, or maximised, over a list of tasks.
pub open spec fn totals(s: Seq<crate::models::schedule::Assignment>, tasks: Seq<Task>) -> (int, int, int, int, int)
    decreases tasks.len(),
{
    if tasks.len() == 0 {
        (0, 0, 0, 0, 0)
    } else {
        let (tt, mt, ot, cc, ft) = totals(s, tasks.drop_last());
        let t = tasks.last();
        (
            tt + tardiness(s, t),
            if tardiness(s, t) > mt { tardiness(s, t) } else { mt },
            ot + if on_time(s, t) { 1int } else { 0 },
            cc + if latest_end(s, t.id@) is Some { 1int } else { 0 },
            ft + flow_time(s, t),
        )
    }
}

/// Quality figures of a schedule for a list of tasks.
#[derive(Debug, Clone, Copy, PartialEq, Eq)]
pub struct ScheduleKpi {
    pub makespan_ms: i64,
    /// Sum of the tasks' lateness.
    pub total_tardiness_ms: i128,
    /// Largest lateness of a task (0 when none is late).
    pub max_tardiness_ms: i128,
    /// Scheduled tasks that complete by their deadline or have none.
    pub on_time_count: usize,
    /// Tasks with at least one assignment.
    pub completed_count: usize,
    /// Sum over scheduled tasks of completion less release time.
    pub total_flow_time_ms: i128,
}

impl ScheduleKpi {
    /// The figures of the schedule for the tasks.
    pub fn calculate(schedule: &Schedule, tasks: &[Task]) -> (r: Self)
        requires
            tasks@.len() <= u32::MAX,
        ensures
            r.makespan_ms == schedule.makespan_ms,
            (r.total_tardiness_ms as int, r.max_tardiness_ms as int, r.on_time_count as int, r.completed_count as int,
                r.total_flow_time_ms as int) == totals(schedule.assignments@, tasks@),
    {
        let mut tt: i128 = 0;
        let mut mt: i128 = 0;
        let mut ot: usize = 0;
        let mut cc: usize = 0;
        let mut ft: i128 = 0;
        let mut i: usize = 0;
        while i < tasks.len()
            invariant
                i <= tasks@.len(),
                tasks@.len() <= u32::MAX,
                (tt as int, mt as int, ot as int, cc as int, ft as int) == totals(schedule.assignments@, tasks@.subrange(0, i as int)),
                0 <= tt <= i as int * 0x1_0000_0000_0000_0000int,
                0 <= mt <= 0x1_0000_0000_0000_0000int,
                ot <= i,
                cc <= i,
                -(i as int) * 0x1_0000_0000_0000_0000int <= ft <= i as int * 0x1_0000_0000_0000_0000int,
            decreases tasks@.len() - i,
        {
            let task = &tasks[i];
            proof {
                assert(tasks@.subrange(0, i + 1).drop_last() =~= tasks@.subrange(0, i as int));
                assert((i as int) * 0x1_0000_0000_0000_0000int + 0x1_0000_0000_0000_0000int == (i + 1) as int * 0x1_0000_0000_0000_0000int) by (nonlinear_arith);
                assert((i + 1) as int * 0x1_0000_0000_0000_0000int <= 0x1_0000_0000int * 0x1_0000_0000_0000_0000int) by (nonlinear_arith)
                    requires i + 1 <= 0x1_0000_0000int;
            }
            if let Some(completion) = schedule.task_completion_time(task.id.as_str()) {
                cc += 1;
                let mut late: i128 = 0;
                if let Some(deadline) = task.deadline {
                    if completion > deadline {
                        late = completion as i128 - deadline as i128;
                    }
                }
                if late > 0 {
                    tt = tt + late;
                    if late > mt {
                        mt = late;
                    }
                } else {
                    ot += 1;
                }
                let release: i128 = match task.release_time {
                    Some(r) => r as i128,
                    None => 0,
                };
                ft = ft + (completion as i128 - release);
            }
            i += 1;
        }
        proof {
            assert(tasks@.subrange(0, i as int) =~= tasks@);
        }
        ScheduleKpi {
            makespan_ms: schedule.makespan_ms,
            total_tardiness_ms: tt,
            max_tardiness_ms: mt,
            on_time_count: ot,
            completed_count: cc,
            total_flow_time_ms: ft,
        }
    }
}

impl Default for ScheduleKpi {
    fn default() -> (r: Self)
        ensures
            r == (ScheduleKpi {
                makespan_ms: 0,
                total_tardiness_ms: 0,
                max_tardiness_ms: 0,
                on_time_count: 0,
                completed_count: 0,
                total_flow_time_ms: 0,
            }),
    {
        ScheduleKpi { makespan_ms: 0, total_tardiness_ms: 0, max_tardiness_ms: 0, on_time_count: 0, completed_count: 0, total_flow_time_ms: 0 }
    }
}

} // verus!

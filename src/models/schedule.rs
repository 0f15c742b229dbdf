//! Schedules: the assignments that a scheduler produced, with their makespan
//! and the violations found.
use vstd::prelude::*;
use crate::text::same_text;

verus! {

/// An activity placed on a resource over `[start_ms, end_ms)`.
#[derive(Debug, Clone)]
pub struct Assignment {
    pub activity_id: String,
    pub task_id: String,
    pub resource_id: String,
    pub start_ms: i64,
    pub end_ms: i64,
    /// Sequence-dependent setup time included in the interval.
    pub setup_ms: i64,
}

impl Assignment {
    /// An assignment without setup time.
    pub fn new(activity_id: &str, task_id: &str, resource_id: &str, start_ms: i64, end_ms: i64) -> (r: Self)
        ensures
            r.activity_id@ == activity_id@,
            r.task_id@ == task_id@,
            r.resource_id@ == resource_id@,
            r.start_ms == start_ms,
            r.end_ms == end_ms,
            r.setup_ms == 0,
    {
        Assignment {
            activity_id: activity_id.to_owned(),
            task_id: task_id.to_owned(),
            resource_id: resource_id.to_owned(),
            start_ms,
            end_ms,
            setup_ms: 0,
        }
    }

    pub fn with_setup(self, setup_ms: i64) -> (r: Self)
        ensures
            r == (Assignment { setup_ms, ..self }),
    {
        Assignment { setup_ms, ..self }
    }

    /// Length of the interval.
    pub fn duration_ms(&self) -> (r: i64)
        requires
            i64::MIN <= self.end_ms - self.start_ms <= i64::MAX,
        ensures
            r == self.end_ms - self.start_ms,
    {
        self.end_ms - self.start_ms
    }

    /// Length of the interval without the setup time.
    pub fn process_ms(&self) -> (r: i64)
        requires
            i64::MIN <= self.end_ms - self.start_ms - self.setup_ms <= i64::MAX,
        ensures
            r == self.end_ms - self.start_ms - self.setup_ms,
    {
        (self.end_ms as i128 - self.start_ms as i128 - self.setup_ms as i128) as i64
    }
}

/// Kinds of violation that a schedule may carry.
#[derive(Debug, Clone, PartialEq, Eq)]
pub enum ViolationType {
    DeadlineMiss,
    CapacityExceeded,
    PrecedenceViolation,
    ResourceUnavailable,
    SkillMismatch,
    Custom(String),
}

/// A broken rule found in a schedule.
#[derive(Debug, Clone)]
pub struct Violation {
    pub violation_type: ViolationType,
    pub entity_id: String,
    pub message: String,
    /// From 0 to 100.
    pub severity: i32,
}

/// Severity given to a missed deadline.
pub const DEADLINE_MISS_SEVERITY: i32 = 80;

/// Severity given to an exceeded capacity.
pub const CAPACITY_EXCEEDED_SEVERITY: i32 = 90;

impl Violation {
    pub fn deadline_miss(task_id: &str, message: &str) -> (r: Self)
        ensures
            r.violation_type is DeadlineMiss,
            r.entity_id@ == task_id@,
            r.message@ == message@,
            r.severity == DEADLINE_MISS_SEVERITY,
    {
        Violation {
            violation_type: ViolationType::DeadlineMiss,
            entity_id: task_id.to_owned(),
            message: message.to_owned(),
            severity: DEADLINE_MISS_SEVERITY,
        }
    }

    pub fn capacity_exceeded(resource_id: &str, message: &str) -> (r: Self)
        ensures
            r.violation_type is CapacityExceeded,
            r.entity_id@ == resource_id@,
            r.message@ == message@,
            r.severity == CAPACITY_EXCEEDED_SEVERITY,
    {
        Violation {
            violation_type: ViolationType::CapacityExceeded,
            entity_id: resource_id.to_owned(),
            message: message.to_owned(),
            severity: CAPACITY_EXCEEDED_SEVERITY,
        }
    }
}

/// The largest end time of a list of assignments, and 0 when it is empty.
pub open spec fn max_end(s: Seq<Assignment>) -> int
    decreases s.len(),
{
    if s.len() == 0 {
        0
    } else if s.len() == 1 {
        s[0].end_ms as int
    } else {
        let m = max_end(s.drop_last());
        if s.last().end_ms > m {
            s.last().end_ms as int
        } else {
            m
        }
    }
}

/// The assignments of a list that lie on the given resource, in order.
pub open spec fn on_resource(s: Seq<Assignment>, resource: Seq<char>) -> Seq<Assignment> {
    s.filter(|a: Assignment| a.resource_id@ == resource)
}

/// The assignments of a list that belong to the given task, in order.
pub open spec fn of_task(s: Seq<Assignment>, task: Seq<char>) -> Seq<Assignment> {
    s.filter(|a: Assignment| a.task_id@ == task)
}

/// The values behind a list of references.
pub open spec fn derefs(r: Seq<&Assignment>) -> Seq<Assignment> {
    r.map_values(|a: &Assignment| *a)
}

/// The latest end of the task's assignments, if it has any.
pub open spec fn latest_end(s: Seq<Assignment>, task: Seq<char>) -> Option<i64>
    decreases s.len(),
{
    if s.len() == 0 {
        None
    } else {
        let r = latest_end(s.drop_last(), task);
        if s.last().task_id@ == task {
            match r {
                None => Some(s.last().end_ms),
                Some(e) => Some(if s.last().end_ms > e { s.last().end_ms } else { e }),
            }
        } else {
            r
        }
    }
}

/// The result of a scheduling run.
#[derive(Debug, Clone)]
pub struct Schedule {
    pub assignments: Vec<Assignment>,
    /// Latest end time over all assignments (0 when there is none).
    pub makespan_ms: i64,
    pub violations: Vec<Violation>,
}

impl Schedule {
    /// The makespan agrees with the assignments.
    pub open spec fn wf(&self) -> bool {
        self.makespan_ms == max_end(self.assignments@)
    }

    pub fn new() -> (r: Self)
        ensures
            r.wf(),
            r.assignments@.len() == 0,
            r.violations@.len() == 0,
            r.makespan_ms == 0,
    {
        Schedule { assignments: Vec::new(), makespan_ms: 0, violations: Vec::new() }
    }

    /// Appends an assignment and raises the makespan to its end if needed.
    pub fn add_assignment(&mut self, assignment: Assignment)
        requires
            old(self).wf(),
        ensures
            final(self).wf(),
            final(self).assignments@ == old(self).assignments@.push(assignment),
            final(self).violations == old(self).violations,
            final(self).makespan_ms == (if old(self).assignments@.len() == 0 || assignment.end_ms > old(self).makespan_ms {
                assignment.end_ms
            } else {
                old(self).makespan_ms
            }),
    {
        if self.assignments.len() == 0 || assignment.end_ms > self.makespan_ms {
            self.makespan_ms = assignment.end_ms;
        }
        self.assignments.push(assignment);
        proof {
            assert(self.assignments@.drop_last() =~= old(self).assignments@);
        }
    }

    pub fn add_violation(&mut self, violation: Violation)
        ensures
            final(self).violations@ == old(self).violations@.push(violation),
            final(self).assignments == old(self).assignments,
            final(self).makespan_ms == old(self).makespan_ms,
    {
        self.violations.push(violation);
    }

    /// True when no violation was recorded.
    pub fn is_valid(&self) -> (r: bool)
        ensures
            r == (self.violations@.len() == 0),
    {
        self.violations.len() == 0
    }

    /// The first assignment of the given activity.
    pub fn assignment_for_activity(&self, activity_id: &str) -> (r: Option<&Assignment>)
        ensures
            r matches Some(a) ==> exists|i: int|
                0 <= i < self.assignments@.len() && self.assignments@[i] == *a
                    && a.activity_id@ == activity_id@
                    && forall|k: int| 0 <= k < i ==> self.assignments@[k].activity_id@ != activity_id@,
            r is None ==> forall|k: int|
                0 <= k < self.assignments@.len() ==> self.assignments@[k].activity_id@ != activity_id@,
    {
        let mut i: usize = 0;
        while i < self.assignments.len()
            invariant
                i <= self.assignments@.len(),
                forall|k: int| 0 <= k < i ==> self.assignments@[k].activity_id@ != activity_id@,
            decreases self.assignments@.len() - i,
        {
            if same_text(&self.assignments[i].activity_id, activity_id) {
                return Some(&self.assignments[i]);
            }
            i += 1;
        }
        None
    }

    /// The assignments of the given task, in order.
    pub fn assignments_for_task(&self, task_id: &str) -> (r: Vec<&Assignment>)
        ensures
            derefs(r@) == of_task(self.assignments@, task_id@),
    {
        let mut r: Vec<&Assignment> = Vec::new();
        let mut i: usize = 0;
        while i < self.assignments.len()
            invariant
                i <= self.assignments@.len(),
                derefs(r@) == of_task(self.assignments@.subrange(0, i as int), task_id@),
            decreases self.assignments@.len() - i,
        {
            proof {
                reveal(Seq::filter);
                assert(self.assignments@.subrange(0, i + 1).drop_last() =~= self.assignments@.subrange(0, i as int));
            }
            if same_text(&self.assignments[i].task_id, task_id) {
                r.push(&self.assignments[i]);
            }
            proof {
                assert(derefs(r@) =~= of_task(self.assignments@.subrange(0, i + 1), task_id@));
            }
            i += 1;
        }
        proof {
            assert(self.assignments@.subrange(0, i as int) =~= self.assignments@);
        }
        r
    }

    /// The assignments on the given resource, in order.
    pub fn assignments_for_resource(&self, resource_id: &str) -> (r: Vec<&Assignment>)
        ensures
            derefs(r@) == on_resource(self.assignments@, resource_id@),
    {
        let mut r: Vec<&Assignment> = Vec::new();
        let mut i: usize = 0;
        while i < self.assignments.len()
            invariant
                i <= self.assignments@.len(),
                derefs(r@) == on_resource(self.assignments@.subrange(0, i as int), resource_id@),
            decreases self.assignments@.len() - i,
        {
            proof {
                reveal(Seq::filter);
                assert(self.assignments@.subrange(0, i + 1).drop_last() =~= self.assignments@.subrange(0, i as int));
            }
            if same_text(&self.assignments[i].resource_id, resource_id) {
                r.push(&self.assignments[i]);
            }
            proof {
                assert(derefs(r@) =~= on_resource(self.assignments@.subrange(0, i + 1), resource_id@));
            }
            i += 1;
        }
        proof {
            assert(self.assignments@.subrange(0, i as int) =~= self.assignments@);
        }
        r
    }

    /// The latest end time of the task's assignments, if it has any.
    pub fn task_completion_time(&self, task_id: &str) -> (r: Option<i64>)
        ensures
            r == latest_end(self.assignments@, task_id@),
            r is None <==> forall|k: int|
                0 <= k < self.assignments@.len() ==> self.assignments@[k].task_id@ != task_id@,
            r matches Some(e) ==> (exists|k: int|
                0 <= k < self.assignments@.len() && self.assignments@[k].task_id@ == task_id@
                    && self.assignments@[k].end_ms == e)
                && forall|k: int|
                0 <= k < self.assignments@.len() && self.assignments@[k].task_id@ == task_id@
                    ==> self.assignments@[k].end_ms <= e,
    {
        let mut best: Option<i64> = None;
        let mut i: usize = 0;
        while i < self.assignments.len()
            invariant
                i <= self.assignments@.len(),
                best == latest_end(self.assignments@.subrange(0, i as int), task_id@),
                best is None <==> forall|k: int| 0 <= k < i ==> self.assignments@[k].task_id@ != task_id@,
                best matches Some(e) ==> (exists|k: int|
                    0 <= k < i && self.assignments@[k].task_id@ == task_id@
                        && self.assignments@[k].end_ms == e)
                    && forall|k: int|
                    0 <= k < i && self.assignments@[k].task_id@ == task_id@
                        ==> self.assignments@[k].end_ms <= e,
            decreases self.assignments@.len() - i,
        {
            let a = &self.assignments[i];
            proof {
                assert(self.assignments@.subrange(0, i + 1).drop_last() =~= self.assignments@.subrange(0, i as int));
            }
            if same_text(&a.task_id, task_id) {
                match best {
                    None => {
                        best = Some(a.end_ms);
                    },
                    Some(e) => {
                        if a.end_ms > e {
                            best = Some(a.end_ms);
                        }
                    },
                }
            }
            i += 1;
        }
        proof {
            assert(self.assignments@.subrange(0, i as int) =~= self.assignments@);
        }
        best
    }

    pub fn assignment_count(&self) -> (r: usize)
        ensures
            r == self.assignments@.len(),
    {
        self.assignments.len()
    }
}

impl Default for Schedule {
    fn default() -> (r: Self)
        ensures
            r.wf(),
            r.assignments@.len() == 0,
            r.violations@.len() == 0,
    {
        Schedule::new()
    }
}

/// Makespan identity: in a well-formed schedule the makespan is the largest
/// end time of an assignment, or 0 when there is none.
pub proof fn makespan_is_latest_end(s: Schedule)
    requires
        s.wf(),
    ensures
        s.assignments@.len() == 0 ==> s.makespan_ms == 0,
        forall|k: int| 0 <= k < s.assignments@.len() ==> s.assignments@[k].end_ms <= s.makespan_ms,
        s.assignments@.len() > 0 ==> exists|k: int|
            0 <= k < s.assignments@.len() && s.assignments@[k].end_ms == s.makespan_ms,
{
    lemma_max_end(s.assignments@);
}

proof fn lemma_max_end(s: Seq<Assignment>)
    ensures
        forall|k: int| 0 <= k < s.len() ==> s[k].end_ms <= max_end(s),
        s.len() > 0 ==> exists|k: int| 0 <= k < s.len() && s[k].end_ms == max_end(s),
        s.len() == 0 ==> max_end(s) == 0,
    decreases s.len(),
{
    if s.len() > 0 {
        let p = s.drop_last();
        lemma_max_end(p);
        assert forall|k: int| 0 <= k < s.len() implies s[k].end_ms <= max_end(s) by {
            if k < s.len() - 1 {
                assert(s[k] == p[k]);
            }
        }
        if p.len() > 0 {
            let k = choose|k: int| 0 <= k < p.len() && p[k].end_ms == max_end(p);
            assert(s[k] == p[k]);
        } else {
            assert(s.last() == s[0]);
        }
    }
}

} // verus!

//! Greedy priority scheduler: tasks by descending priority, each activity on
//! the candidate resource where it can start first.
use vstd::prelude::*;
use crate::models::activity::Activity;
use crate::models::constraint::{TransitionMatrix, TransitionMatrixCollection, latest_transition, matrix_for};
use crate::models::resource::Resource;
use crate::models::schedule::{Assignment, Schedule, Violation, ViolationType};
use crate::models::task::Task;
use crate::scheduler::order::{is_stable_order, stable_order};

verus! {

/// Message kind recorded when an activity's end time does not fit in 64 bits.
pub const TIME_OVERFLOW: &'static str = "TIME_OVERFLOW";

/// `s` is the first position of a resource with the given id.
pub open spec fn is_slot(res: Seq<Resource>, id: Seq<char>, s: int) -> bool {
    0 <= s < res.len() && res[s].id@ == id && forall|k: int| 0 <= k < s ==> res[k].id@ != id
}

/// No activity has a negative processing time.
pub open spec fn durations_nonneg(tasks: Seq<Task>) -> bool {
    forall|t: int, j: int|
        0 <= t < tasks.len() && 0 <= j < tasks[t].activities@.len()
            ==> #[trigger] tasks[t].activities@[j].duration.process_ms >= 0
}

/// No two tasks share an id.
pub open spec fn unique_task_ids(tasks: Seq<Task>) -> bool {
    forall|a: int, b: int| 0 <= a < b < tasks.len() ==> tasks[a].id@ != tasks[b].id@
}

/// Every setup time and default of every matrix is non-negative.
pub open spec fn setups_nonneg(m: TransitionMatrixCollection) -> bool {
    forall|i: int| 0 <= i < m.matrices@.len() ==> #[trigger] matrix_nonneg(m.matrices@[i])
}

/// The matrix's default and entries are non-negative.
pub open spec fn matrix_nonneg(m: TransitionMatrix) -> bool {
    m.default_ms >= 0 && forall|k: int| 0 <= k < m.transitions@.len() ==> #[trigger] m.transitions@[k].time_ms >= 0
}

/// The assignment places activity `j` of task `t` on a candidate resource
/// for its processing time plus the recorded setup.
pub open spec fn placed_from(tasks: Seq<Task>, res: Seq<Resource>, start: i64, a: Assignment, t: int, j: int) -> bool {
    let task = tasks[t];
    let act = task.activities@[j];
    &&& 0 <= t < tasks.len()
    &&& 0 <= j < task.activities@.len()
    &&& a.task_id@ == task.id@
    &&& a.activity_id@ == act.id@
    &&& (exists|c: int| 0 <= c < act.candidates().len() && #[trigger] act.candidates()[c]@ == a.resource_id@)
    &&& (exists|s: int| #[trigger] is_slot(res, a.resource_id@, s))
    &&& a.end_ms == a.start_ms + a.setup_ms + act.duration.process_ms
}

/// Some resource has the id.
pub open spec fn has_slot(res: Seq<Resource>, id: Seq<char>) -> bool {
    exists|s: int| #[trigger] is_slot(res, id, s)
}

/// Activity `j` of task `t` has a candidate that names a resource.
pub open spec fn placeable(tasks: Seq<Task>, res: Seq<Resource>, t: int, j: int) -> bool {
    exists|c: int|
        0 <= c < tasks[t].activities@[j].candidates().len() && #[trigger] has_slot(res, tasks[t].activities@[j].candidates()[c]@)
}

/// Activity `j` of task `t` was placed, or recorded as a violation.
pub open spec fn covered(tasks: Seq<Task>, res: Seq<Resource>, start: i64, s: Schedule, t: int, j: int) -> bool {
    (exists|k: int| 0 <= k < s.assignments@.len() && #[trigger] placed_from(tasks, res, start, s.assignments@[k], t, j))
        || (exists|v: int| 0 <= v < s.violations@.len() && #[trigger] s.violations@[v].entity_id@ == tasks[t].activities@[j].id@)
}

/// A violation of the scheduler: an activity whose end would not fit in 64
/// bits, recorded under its id.
pub open spec fn overflow_record(tasks: Seq<Task>, res: Seq<Resource>, v: Violation) -> bool {
    &&& v.violation_type matches ViolationType::Custom(k) && k@ == TIME_OVERFLOW@
    &&& exists|t: int, j: int| 0 <= t < tasks.len() && 0 <= j < tasks[t].activities@.len()
        && placeable(tasks, res, t, j) && #[trigger] tasks[t].activities@[j].id@ == v.entity_id@
}

/// Every activity with a candidate that names a resource was placed or
/// recorded as a violation.
pub open spec fn complete(tasks: Seq<Task>, res: Seq<Resource>, start: i64, s: Schedule) -> bool {
    forall|t: int, j: int| 0 <= t < tasks.len() && 0 <= j < tasks[t].activities@.len() && placeable(tasks, res, t, j)
        ==> #[trigger] covered(tasks, res, start, s, t, j)
}

proof fn lemma_covered_grows(tasks: Seq<Task>, res: Seq<Resource>, start: i64, a: Schedule, b: Schedule, t: int, j: int)
    requires
        covered(tasks, res, start, a, t, j),
        a.assignments@.len() <= b.assignments@.len(),
        forall|k: int| 0 <= k < a.assignments@.len() ==> b.assignments@[k] == a.assignments@[k],
        a.violations@.len() <= b.violations@.len(),
        forall|k: int| 0 <= k < a.violations@.len() ==> b.violations@[k] == a.violations@[k],
    ensures
        covered(tasks, res, start, b, t, j),
{
    if exists|k: int| 0 <= k < a.assignments@.len() && #[trigger] placed_from(tasks, res, start, a.assignments@[k], t, j) {
        let k = choose|k: int| 0 <= k < a.assignments@.len() && #[trigger] placed_from(tasks, res, start, a.assignments@[k], t, j);
        assert(placed_from(tasks, res, start, b.assignments@[k], t, j));
    } else {
        let v = choose|v: int| 0 <= v < a.violations@.len() && #[trigger] a.violations@[v].entity_id@ == tasks[t].activities@[j].id@;
        assert(b.violations@[v].entity_id@ == tasks[t].activities@[j].id@);
    }
}

/// No two activities of a task share an id.
pub open spec fn unique_activity_ids(tasks: Seq<Task>) -> bool {
    forall|t: int, a: int, b: int|
        0 <= t < tasks.len() && 0 <= a < b < tasks[t].activities@.len()
            ==> #[trigger] tasks[t].activities@[a].id@ != #[trigger] tasks[t].activities@[b].id@
}

/// Within a task, an activity of lower sequence number ends before one of
/// higher sequence number starts.
pub open spec fn sequence_ordered(tasks: Seq<Task>, res: Seq<Resource>, start: i64, s: Seq<Assignment>) -> bool {
    forall|k1: int, k2: int, t: int, j1: int, j2: int|
        0 <= k1 < s.len() && 0 <= k2 < s.len() && #[trigger] placed_from(tasks, res, start, s[k1], t, j1)
            && #[trigger] placed_from(tasks, res, start, s[k2], t, j2)
            && tasks[t].activities@[j1].sequence < tasks[t].activities@[j2].sequence
            ==> s[k1].end_ms <= s[k2].start_ms
}

/// Index of the last assignment before `k` on the resource.
pub open spec fn last_on(s: Seq<Assignment>, k: int, x: Seq<char>) -> Option<int>
    decreases k,
{
    if k <= 0 {
        None
    } else if s[k - 1].resource_id@ == x {
        Some(k - 1)
    } else {
        last_on(s, k - 1, x)
    }
}

/// Index of the last assignment before `k` of the task.
pub open spec fn last_of_task(s: Seq<Assignment>, k: int, id: Seq<char>) -> Option<int>
    decreases k,
{
    if k <= 0 {
        None
    } else if s[k - 1].task_id@ == id {
        Some(k - 1)
    } else {
        last_of_task(s, k - 1, id)
    }
}

/// When the resource is free before assignment `k`: the end of its last
/// assignment, else the start time.
pub open spec fn free_at(s: Seq<Assignment>, k: int, x: Seq<char>, start: i64) -> int {
    match last_on(s, k, x) {
        Some(i) => s[i].end_ms as int,
        None => start as int,
    }
}

/// When the task may go on before assignment `k`: the end of its last
/// assignment, else the start time or its release time, whichever is later.
pub open spec fn ready_at(s: Seq<Assignment>, k: int, task: Task, start: i64) -> int {
    match last_of_task(s, k, task.id@) {
        Some(i) => s[i].end_ms as int,
        None => match task.release_time {
            Some(r) => if r > start { r as int } else { start as int },
            None => start as int,
        },
    }
}

/// The earliest start of the task's next activity on the resource, before assignment `k`.
pub open spec fn earliest(s: Seq<Assignment>, k: int, x: Seq<char>, task: Task, start: i64) -> int {
    let f = free_at(s, k, x, start);
    let r = ready_at(s, k, task, start);
    if f > r { f } else { r }
}

/// The category of the task with the id.
pub open spec fn category_of(tasks: Seq<Task>, id: Seq<char>) -> Seq<char> {
    tasks[choose|t: int| 0 <= t < tasks.len() && tasks[t].id@ == id].category@
}

/// Assignment `k`, of activity `j` of task `t`, is the greedy choice: it
/// starts as early as its resource and task allow, no candidate would let it
/// start earlier, an earlier candidate only when it would start later, and
/// its setup time is the matrix time from the category of the resource's
/// previous task (0 for the resource's first assignment).
pub open spec fn greedy_at(
    tasks: Seq<Task>,
    res: Seq<Resource>,
    m: TransitionMatrixCollection,
    start: i64,
    s: Seq<Assignment>,
    k: int,
    t: int,
    j: int,
) -> bool {
    let a = s[k];
    let task = tasks[t];
    let cands = task.activities@[j].candidates();
    &&& a.start_ms == earliest(s, k, a.resource_id@, task, start)
    &&& forall|c: int| 0 <= c < cands.len() && has_slot(res, cands[c]@)
        ==> a.start_ms <= #[trigger] earliest(s, k, cands[c]@, task, start)
    &&& exists|ci: int| 0 <= ci < cands.len() && #[trigger] cands[ci]@ == a.resource_id@
        && forall|c: int| 0 <= c < ci && has_slot(res, cands[c]@)
            ==> a.start_ms < #[trigger] earliest(s, k, cands[c]@, task, start)
    &&& a.setup_ms == match last_on(s, k, a.resource_id@) {
        None => 0,
        Some(i) => m.setup_time(a.resource_id@, category_of(tasks, s[i].task_id@), task.category@) as int,
    }
}

/// The category register of a resource matches its last assignment's task.
spec fn category_tracked(
    tasks: Seq<Task>,
    order: Seq<usize>,
    tpos: Seq<int>,
    s: Seq<Assignment>,
    lc: Option<String>,
    x: Seq<char>,
) -> bool {
    match last_on(s, s.len() as int, x) {
        None => lc is None,
        Some(i) => lc is Some && lc->0@ == tasks[order[tpos[i]] as int].category@,
    }
}

/// The effective start on a resource for a task whose cursor is `cursor`.
spec fn effective(s: Seq<Assignment>, x: Seq<char>, start: i64, cursor: i64) -> int {
    let f = free_at(s, s.len() as int, x, start);
    if f > cursor { f } else { cursor as int }
}

proof fn lemma_category_of(tasks: Seq<Task>, t: int)
    requires
        0 <= t < tasks.len(),
        unique_task_ids(tasks),
    ensures
        category_of(tasks, tasks[t].id@) == tasks[t].category@,
{
    let c = choose|c: int| 0 <= c < tasks.len() && tasks[c].id@ == tasks[t].id@;
    if c != t {
        if c < t {
            assert(tasks[c].id@ != tasks[t].id@);
        } else {
            assert(tasks[t].id@ != tasks[c].id@);
        }
    }
}

/// Tasks are served by descending priority, equal priorities in input order.
pub open spec fn priority_ordered(tasks: Seq<Task>, res: Seq<Resource>, start: i64, s: Seq<Assignment>) -> bool {
    forall|k1: int, k2: int, t1: int, j1: int, t2: int, j2: int|
        0 <= k1 < k2 < s.len() && #[trigger] placed_from(tasks, res, start, s[k1], t1, j1)
            && #[trigger] placed_from(tasks, res, start, s[k2], t2, j2)
            ==> tasks[t1].priority > tasks[t2].priority || (tasks[t1].priority == tasks[t2].priority && t1 <= t2)
}

/// Within a task, activities are placed in order of sequence number.
pub open spec fn emitted_by_sequence(tasks: Seq<Task>, res: Seq<Resource>, start: i64, s: Seq<Assignment>) -> bool {
    forall|k1: int, k2: int, t: int, j1: int, j2: int|
        0 <= k1 < k2 < s.len() && #[trigger] placed_from(tasks, res, start, s[k1], t, j1)
            && #[trigger] placed_from(tasks, res, start, s[k2], t, j2)
            ==> tasks[t].activities@[j1].sequence <= tasks[t].activities@[j2].sequence
}

proof fn lemma_last_of_task_is(s: Seq<Assignment>, k1: int, k2: int, id: Seq<char>)
    requires
        0 <= k1 < k2 <= s.len(),
        s[k1].task_id@ == id,
        forall|k: int| k1 < k < k2 ==> s[k].task_id@ != id,
    ensures
        last_of_task(s, k2, id) == Some(k1),
    decreases k2 - k1,
{
    if k2 - 1 > k1 {
        lemma_last_of_task_is(s, k1, k2 - 1, id);
    }
}

/// Intra-task order: in a greedy schedule, of two assignments of a task with
/// none of the task's assignments between them, the earlier ends no later
/// than the later starts, whatever the signs of the durations.
pub proof fn consecutive_activities_ordered(
    tasks: Seq<Task>,
    res: Seq<Resource>,
    m: TransitionMatrixCollection,
    start: i64,
    s: Seq<Assignment>,
    k1: int,
    k2: int,
    t: int,
    j2: int,
)
    requires
        greedy(tasks, res, m, start, s),
        0 <= k1 < k2 < s.len(),
        placed_from(tasks, res, start, s[k2], t, j2),
        s[k1].task_id@ == s[k2].task_id@,
        forall|k: int| k1 < k < k2 ==> s[k].task_id@ != s[k2].task_id@,
    ensures
        s[k1].end_ms <= s[k2].start_ms,
{
    assert(greedy_at(tasks, res, m, start, s, k2, t, j2));
    lemma_last_of_task_is(s, k1, k2, tasks[t].id@);
}

/// No activity is placed twice.
pub open spec fn placed_once(tasks: Seq<Task>, res: Seq<Resource>, start: i64, s: Seq<Assignment>) -> bool {
    forall|k1: int, k2: int, t: int, j: int|
        0 <= k1 < k2 < s.len() && #[trigger] placed_from(tasks, res, start, s[k1], t, j)
            ==> !#[trigger] placed_from(tasks, res, start, s[k2], t, j)
}

/// Every violation stands for a placement whose end would not fit in 64 bits.
pub open spec fn violations_justified(tasks: Seq<Task>, res: Seq<Resource>, m: TransitionMatrixCollection, start: i64, r: Schedule) -> bool {
    forall|v: int| 0 <= v < r.violations@.len() ==> #[trigger] justified(tasks, res, m, start, r.assignments@, r.violations@[v])
}

/// Every assignment is the greedy choice for its activity.
pub open spec fn greedy(tasks: Seq<Task>, res: Seq<Resource>, m: TransitionMatrixCollection, start: i64, s: Seq<Assignment>) -> bool {
    forall|k: int, t: int, j: int|
        0 <= k < s.len() && #[trigger] placed_from(tasks, res, start, s[k], t, j) ==> greedy_at(tasks, res, m, start, s, k, t, j)
}

proof fn lemma_last_on_push(s: Seq<Assignment>, a: Assignment, k: int, x: Seq<char>)
    requires
        k <= s.len(),
    ensures
        last_on(s.push(a), k, x) == last_on(s, k, x),
    decreases k,
{
    if k > 0 {
        lemma_last_on_push(s, a, k - 1, x);
    }
}

proof fn lemma_last_of_task_push(s: Seq<Assignment>, a: Assignment, k: int, id: Seq<char>)
    requires
        k <= s.len(),
    ensures
        last_of_task(s.push(a), k, id) == last_of_task(s, k, id),
    decreases k,
{
    if k > 0 {
        lemma_last_of_task_push(s, a, k - 1, id);
    }
}

proof fn lemma_last_on_bound(s: Seq<Assignment>, k: int, x: Seq<char>)
    ensures
        last_on(s, k, x) matches Some(i) ==> 0 <= i < k && s[i].resource_id@ == x,
    decreases k,
{
    if k > 0 {
        lemma_last_on_bound(s, k - 1, x);
    }
}

proof fn lemma_last_of_task_bound(s: Seq<Assignment>, k: int, id: Seq<char>)
    ensures
        last_of_task(s, k, id) matches Some(i) ==> 0 <= i < k,
    decreases k,
{
    if k > 0 {
        lemma_last_of_task_bound(s, k - 1, id);
    }
}

proof fn lemma_no_task(s: Seq<Assignment>, k: int, id: Seq<char>)
    requires
        k <= s.len(),
        forall|i: int| 0 <= i < k ==> s[i].task_id@ != id,
    ensures
        last_of_task(s, k, id) is None,
    decreases k,
{
    if k > 0 {
        lemma_no_task(s, k - 1, id);
    }
}

proof fn lemma_earliest_push(s: Seq<Assignment>, a: Assignment, k: int, x: Seq<char>, task: Task, start: i64)
    requires
        k <= s.len(),
    ensures
        earliest(s.push(a), k, x, task, start) == earliest(s, k, x, task, start),
        free_at(s.push(a), k, x, start) == free_at(s, k, x, start),
        ready_at(s.push(a), k, task, start) == ready_at(s, k, task, start),
{
    lemma_last_on_push(s, a, k, x);
    lemma_last_of_task_push(s, a, k, task.id@);
    lemma_last_on_bound(s, k, x);
    lemma_last_of_task_bound(s, k, task.id@);
}

proof fn lemma_greedy_push(
    tasks: Seq<Task>,
    res: Seq<Resource>,
    m: TransitionMatrixCollection,
    start: i64,
    s: Seq<Assignment>,
    a: Assignment,
    k: int,
    t: int,
    j: int,
)
    requires
        0 <= k < s.len(),
        greedy_at(tasks, res, m, start, s, k, t, j),
    ensures
        greedy_at(tasks, res, m, start, s.push(a), k, t, j),
{
    let s2 = s.push(a);
    assert(s2[k] == s[k]);
    assert forall|x: Seq<char>| #[trigger] earliest(s2, k, x, tasks[t], start) == earliest(s, k, x, tasks[t], start) by {
        lemma_earliest_push(s, a, k, x, tasks[t], start);
    }
    lemma_last_on_push(s, a, k, s[k].resource_id@);
    lemma_last_on_bound(s, k, s[k].resource_id@);
    if let Some(i) = last_on(s, k, s[k].resource_id@) {
        assert(s2[i] == s[i]);
    }
}

/// The setup time before the task's next activity on the resource, before
/// assignment `k`: the matrix time from the category of the resource's last
/// task, or 0 when the resource has none.
pub open spec fn setup_before(tasks: Seq<Task>, m: TransitionMatrixCollection, s: Seq<Assignment>, k: int, x: Seq<char>, task: Task) -> int {
    match last_on(s, k, x) {
        None => 0,
        Some(i) => m.setup_time(x, category_of(tasks, s[i].task_id@), task.category@) as int,
    }
}

/// The greedy choice's end for the activity with `n` assignments made, taken
/// on candidate `ci`, does not fit in 64 bits.
pub open spec fn overflows_on(
    tasks: Seq<Task>,
    res: Seq<Resource>,
    m: TransitionMatrixCollection,
    start: i64,
    s: Seq<Assignment>,
    n: int,
    t: int,
    j: int,
    ci: int,
) -> bool {
    let task = tasks[t];
    let cands = task.activities@[j].candidates();
    let e = earliest(s, n, cands[ci]@, task, start);
    &&& 0 <= ci < cands.len()
    &&& has_slot(res, cands[ci]@)
    &&& forall|c: int| 0 <= c < cands.len() && has_slot(res, cands[c]@)
        ==> e <= #[trigger] earliest(s, n, cands[c]@, task, start)
    &&& forall|c: int| 0 <= c < ci && has_slot(res, cands[c]@)
        ==> e < #[trigger] earliest(s, n, cands[c]@, task, start)
    &&& !(i64::MIN <= e + setup_before(tasks, m, s, n, cands[ci]@, task) + task.activities@[j].duration.process_ms <= i64::MAX)
}

/// With the first `n` assignments made, the greedy choice for activity `j`
/// of task `t` is a candidate whose end, `earliest + setup + processing`,
/// does not fit in 64 bits.
pub open spec fn overflow_at(
    tasks: Seq<Task>,
    res: Seq<Resource>,
    m: TransitionMatrixCollection,
    start: i64,
    s: Seq<Assignment>,
    n: int,
    t: int,
    j: int,
) -> bool {
    &&& 0 <= n <= s.len()
    &&& 0 <= t < tasks.len()
    &&& 0 <= j < tasks[t].activities@.len()
    &&& exists|ci: int| #[trigger] overflows_on(tasks, res, m, start, s, n, t, j, ci)
}

/// The violation is recorded for an activity whose greedy placement, at some
/// point of the run, would have ended outside 64 bits.
pub open spec fn justified(
    tasks: Seq<Task>,
    res: Seq<Resource>,
    m: TransitionMatrixCollection,
    start: i64,
    s: Seq<Assignment>,
    v: Violation,
) -> bool {
    exists|n: int, t: int, j: int| #[trigger] overflow_at(tasks, res, m, start, s, n, t, j)
        && tasks[t].activities@[j].id@ == v.entity_id@
}

proof fn lemma_overflow_push(
    tasks: Seq<Task>,
    res: Seq<Resource>,
    m: TransitionMatrixCollection,
    start: i64,
    s: Seq<Assignment>,
    a: Assignment,
    n: int,
    t: int,
    j: int,
)
    requires
        overflow_at(tasks, res, m, start, s, n, t, j),
    ensures
        overflow_at(tasks, res, m, start, s.push(a), n, t, j),
{
    let s2 = s.push(a);
    assert forall|x: Seq<char>| #[trigger] earliest(s2, n, x, tasks[t], start) == earliest(s, n, x, tasks[t], start)
        && setup_before(tasks, m, s2, n, x, tasks[t]) == setup_before(tasks, m, s, n, x, tasks[t]) by {
        lemma_earliest_push(s, a, n, x, tasks[t], start);
        lemma_last_on_push(s, a, n, x);
        lemma_last_on_bound(s, n, x);
        if let Some(i) = last_on(s, n, x) {
            assert(s2[i] == s[i]);
        }
    }
    let ci = choose|ci: int| #[trigger] overflows_on(tasks, res, m, start, s, n, t, j, ci);
    let cands = tasks[t].activities@[j].candidates();
    assert(earliest(s2, n, cands[ci]@, tasks[t], start) == earliest(s, n, cands[ci]@, tasks[t], start));
    assert(setup_before(tasks, m, s2, n, cands[ci]@, tasks[t]) == setup_before(tasks, m, s, n, cands[ci]@, tasks[t]));
    assert forall|c: int| 0 <= c < cands.len() && has_slot(res, cands[c]@)
        implies earliest(s2, n, cands[ci]@, tasks[t], start) <= #[trigger] earliest(s2, n, cands[c]@, tasks[t], start) by {
        assert(earliest(s2, n, cands[c]@, tasks[t], start) == earliest(s, n, cands[c]@, tasks[t], start));
    }
    assert forall|c: int| 0 <= c < ci && has_slot(res, cands[c]@)
        implies earliest(s2, n, cands[ci]@, tasks[t], start) < #[trigger] earliest(s2, n, cands[c]@, tasks[t], start) by {
        assert(earliest(s2, n, cands[c]@, tasks[t], start) == earliest(s, n, cands[c]@, tasks[t], start));
    }
    assert(overflows_on(tasks, res, m, start, s2, n, t, j, ci));
}

/// The assignment stems from some activity of the input.
pub open spec fn grounded(tasks: Seq<Task>, res: Seq<Resource>, start: i64, a: Assignment) -> bool {
    exists|t: int, j: int| #[trigger] placed_from(tasks, res, start, a, t, j)
}

/// Two assignments on the same resource do not overlap: the earlier one
/// ends before the later one starts.
pub open spec fn resource_exclusive(s: Seq<Assignment>) -> bool {
    forall|i: int, j: int|
        0 <= i < j < s.len() && s[i].resource_id@ == s[j].resource_id@ ==> s[i].end_ms <= s[j].start_ms
}

/// The activities of one task follow each other: the earlier ends before the
/// later starts.
pub open spec fn task_ordered(s: Seq<Assignment>) -> bool {
    forall|i: int, j: int|
        0 <= i < j < s.len() && s[i].task_id@ == s[j].task_id@ ==> s[i].end_ms <= s[j].start_ms
}

proof fn lemma_latest_nonneg(e: Seq<crate::models::constraint::Transition>, from: Seq<char>, to: Seq<char>)
    requires
        forall|k: int| 0 <= k < e.len() ==> #[trigger] e[k].time_ms >= 0,
    ensures
        latest_transition(e, from, to) matches Some(t) ==> t >= 0,
    decreases e.len(),
{
    if e.len() > 0 {
        let p = e.drop_last();
        assert forall|k: int| 0 <= k < p.len() implies #[trigger] p[k].time_ms >= 0 by {
            assert(p[k] == e[k]);
        }
        lemma_latest_nonneg(p, from, to);
    }
}

proof fn lemma_matrix_for_member(m: Seq<TransitionMatrix>, r: Seq<char>)
    ensures
        matrix_for(m, r) matches Some(x) ==> exists|i: int| 0 <= i < m.len() && m[i] == x,
    decreases m.len(),
{
    if m.len() > 0 && m[0].resource_id@ != r {
        lemma_matrix_for_member(m.drop_first(), r);
        if matrix_for(m.drop_first(), r) is Some {
            let i = choose|i: int| 0 <= i < m.drop_first().len() && m.drop_first()[i] == matrix_for(m.drop_first(), r)->0;
            assert(m[i + 1] == m.drop_first()[i]);
        }
    }
}

proof fn lemma_setup_nonneg(m: TransitionMatrixCollection, r: Seq<char>, from: Seq<char>, to: Seq<char>)
    requires
        setups_nonneg(m),
    ensures
        m.setup_time(r, from, to) >= 0,
{
    lemma_matrix_for_member(m.matrices@, r);
    if let Some(x) = matrix_for(m.matrices@, r) {
        let i = choose|i: int| 0 <= i < m.matrices@.len() && m.matrices@[i] == x;
        assert(matrix_nonneg(m.matrices@[i]));
        lemma_latest_nonneg(x.transitions@, from, to);
    }
}

/// The first position of a resource with the given id.
fn find_slot(resources: &[Resource], id: &String) -> (r: Option<usize>)
    ensures
        r matches Some(s) ==> is_slot(resources@, id@, s as int),
        r is None ==> forall|k: int| 0 <= k < resources@.len() ==> resources@[k].id@ != id@,
{
    let mut i: usize = 0;
    while i < resources.len()
        invariant
            i <= resources@.len(),
            forall|k: int| 0 <= k < i ==> resources@[k].id@ != id@,
        decreases resources@.len() - i,
    {
        if resources[i].id == *id {
            return Some(i);
        }
        i += 1;
    }
    None
}

/// Builds a schedule greedily; see [`SimpleScheduler::schedule`].
pub fn greedy_schedule(
    matrices: &TransitionMatrixCollection,
    tasks: &[Task],
    resources: &[Resource],
    start_time_ms: i64,
) -> (r: Schedule)
    ensures
        r.wf(),
        complete(tasks@, resources@, start_time_ms, r),
        forall|v: int| 0 <= v < r.violations@.len() ==> #[trigger] overflow_record(tasks@, resources@, r.violations@[v]),
        forall|k: int| 0 <= k < r.assignments@.len()
            ==> #[trigger] grounded(tasks@, resources@, start_time_ms, r.assignments@[k]),
        durations_nonneg(tasks@) && setups_nonneg(*matrices) ==> resource_exclusive(r.assignments@),
        durations_nonneg(tasks@) && setups_nonneg(*matrices) ==> forall|k: int|
            0 <= k < r.assignments@.len() ==> #[trigger] r.assignments@[k].start_ms >= start_time_ms
                && r.assignments@[k].end_ms >= r.assignments@[k].start_ms,
        durations_nonneg(tasks@) && setups_nonneg(*matrices) && unique_task_ids(tasks@) ==> forall|k: int, t: int|
            0 <= k < r.assignments@.len() && 0 <= t < tasks@.len()
                && #[trigger] r.assignments@[k].task_id@ == #[trigger] tasks@[t].id@
                && tasks@[t].release_time is Some
                ==> r.assignments@[k].start_ms >= tasks@[t].release_time->0,
        durations_nonneg(tasks@) && setups_nonneg(*matrices) && unique_task_ids(tasks@)
            ==> task_ordered(r.assignments@),
        durations_nonneg(tasks@) && setups_nonneg(*matrices) && unique_task_ids(tasks@) && unique_activity_ids(tasks@)
            ==> sequence_ordered(tasks@, resources@, start_time_ms, r.assignments@),
        unique_task_ids(tasks@) && unique_activity_ids(tasks@) ==> greedy(tasks@, resources@, *matrices, start_time_ms, r.assignments@),
        unique_task_ids(tasks@) ==> priority_ordered(tasks@, resources@, start_time_ms, r.assignments@),
        unique_task_ids(tasks@) ==> violations_justified(tasks@, resources@, *matrices, start_time_ms, r),
        unique_task_ids(tasks@) && unique_activity_ids(tasks@) ==> placed_once(tasks@, resources@, start_time_ms, r.assignments@),
        unique_task_ids(tasks@) && unique_activity_ids(tasks@) ==> emitted_by_sequence(tasks@, resources@, start_time_ms, r.assignments@),
{
    let ghost nn = durations_nonneg(tasks@) && setups_nonneg(*matrices);
    let mut schedule = Schedule::new();
    let mut available: Vec<i64> = Vec::new();
    let mut last_category: Vec<Option<String>> = Vec::new();
    let mut ri: usize = 0;
    while ri < resources.len()
        invariant
            ri <= resources@.len(),
            available@.len() == ri,
            last_category@.len() == ri,
            forall|k: int| 0 <= k < ri ==> available@[k] == start_time_ms && last_category@[k] is None,
        decreases resources@.len() - ri,
    {
        available.push(start_time_ms);
        last_category.push(None);
        ri += 1;
    }
    let mut keys: Vec<i64> = Vec::new();
    let mut ti: usize = 0;
    while ti < tasks.len()
        invariant
            ti <= tasks@.len(),
            keys@.len() == ti,
            forall|k: int| 0 <= k < ti ==> keys@[k] == -(tasks@[k].priority as int),
            available@.len() == resources@.len(),
            last_category@.len() == resources@.len(),
            forall|k: int| 0 <= k < resources@.len() ==> available@[k] == start_time_ms && last_category@[k] is None,
        decreases tasks@.len() - ti,
    {
        keys.push(-(tasks[ti].priority as i64));
        ti += 1;
    }
    let order = stable_order(&keys);
    let ghost uq = unique_task_ids(tasks@);
    proof {
        assert forall|sl: int| 0 <= sl < resources@.len() && is_slot(resources@, resources@[sl].id@, sl)
            implies #[trigger] category_tracked(tasks@, order@, Seq::<int>::empty(), schedule.assignments@, last_category@[sl], resources@[sl].id@) by {
            assert(available@[sl] == start_time_ms);
            assert(last_category@[sl] is None);
        }
        assert forall|sl: int| 0 <= sl < resources@.len() && is_slot(resources@, resources@[sl].id@, sl)
            implies available@[sl] as int == #[trigger] free_at(schedule.assignments@, schedule.assignments@.len() as int, resources@[sl].id@, start_time_ms) by {
            assert(available@[sl] == start_time_ms);
        }
    }
    let ghost tpos: Seq<int> = Seq::empty();
    let ghost apos: Seq<int> = Seq::empty();
    let ghost ppos: Seq<int> = Seq::empty();
    let mut q: usize = 0;
    while q < order.len()
        invariant
            q <= order@.len(),
            is_stable_order(keys@, order@),
            keys@.len() == tasks@.len(),
            available@.len() == resources@.len(),
            last_category@.len() == resources@.len(),
            schedule.wf(),
            forall|v: int| 0 <= v < schedule.violations@.len() ==> #[trigger] overflow_record(tasks@, resources@, schedule.violations@[v]),
            forall|q2: int, j: int| 0 <= q2 < q && 0 <= j < tasks@[order@[q2] as int].activities@.len()
                && placeable(tasks@, resources@, order@[q2] as int, j)
                ==> #[trigger] covered(tasks@, resources@, start_time_ms, schedule, order@[q2] as int, j),
            nn == (durations_nonneg(tasks@) && setups_nonneg(*matrices)),
            tpos.len() == schedule.assignments@.len(),
            apos.len() == tpos.len(),
            ppos.len() == tpos.len(),
            forall|sl: int| 0 <= sl < resources@.len() && is_slot(resources@, resources@[sl].id@, sl)
                ==> available@[sl] as int == #[trigger] free_at(schedule.assignments@, schedule.assignments@.len() as int, resources@[sl].id@, start_time_ms),
            forall|sl: int| 0 <= sl < resources@.len() && is_slot(resources@, resources@[sl].id@, sl)
                ==> #[trigger] category_tracked(tasks@, order@, tpos, schedule.assignments@, last_category@[sl], resources@[sl].id@),
            uq == unique_task_ids(tasks@),
            forall|i: int, k: int| 0 <= i < k < tpos.len() && tpos[i] == tpos[k] ==> #[trigger] apos[i] != #[trigger] apos[k],
            uq ==> forall|v: int| 0 <= v < schedule.violations@.len() ==> #[trigger] justified(tasks@, resources@, *matrices,
                start_time_ms, schedule.assignments@, schedule.violations@[v]),
            uq ==> forall|k: int| 0 <= k < tpos.len() ==> #[trigger] greedy_at(tasks@, resources@, *matrices, start_time_ms,
                schedule.assignments@, k, order@[tpos[k]] as int, apos[k]),
            forall|k: int| 0 <= k < tpos.len() ==> #[trigger] placed_from(tasks@, resources@, start_time_ms,
                schedule.assignments@[k], order@[tpos[k]] as int, apos[k]),
            forall|i: int, k: int| 0 <= i < k < tpos.len() && tpos[i] == tpos[k]
                ==> #[trigger] tasks@[order@[tpos[i]] as int].activities@[apos[i]].sequence
                    <= #[trigger] tasks@[order@[tpos[k]] as int].activities@[apos[k]].sequence,
            forall|k: int| 0 <= k < tpos.len() ==> 0 <= #[trigger] tpos[k] < q,
            forall|i: int, k: int| 0 <= i < k < tpos.len() ==> #[trigger] tpos[i] <= #[trigger] tpos[k],
            forall|k: int| 0 <= k < tpos.len()
                ==> schedule.assignments@[k].task_id@ == tasks@[order@[#[trigger] tpos[k]] as int].id@,
            forall|k: int| 0 <= k < schedule.assignments@.len()
                ==> #[trigger] grounded(tasks@, resources@, start_time_ms, schedule.assignments@[k]),
            nn ==> forall|k: int, s: int| 0 <= k < schedule.assignments@.len()
                && is_slot(resources@, schedule.assignments@[k].resource_id@, s)
                ==> #[trigger] schedule.assignments@[k].end_ms <= #[trigger] available@[s],
            nn ==> forall|k: int| 0 <= k < tpos.len()
                ==> #[trigger] schedule.assignments@[k].start_ms >= start_time_ms
                    && schedule.assignments@[k].end_ms >= schedule.assignments@[k].start_ms
                    && (tasks@[order@[tpos[k]] as int].release_time matches Some(rt)
                        ==> schedule.assignments@[k].start_ms >= rt),
            nn ==> resource_exclusive(schedule.assignments@),
            nn ==> forall|i: int, j: int| 0 <= i < j < tpos.len() && tpos[i] == tpos[j]
                ==> schedule.assignments@[i].end_ms <= schedule.assignments@[j].start_ms,
        decreases order@.len() - q,
    {
        let t = order[q];
        let task = &tasks[t];
        let mut cursor: i64 = start_time_ms;
        if let Some(rt) = task.release_time {
            if rt > cursor {
                cursor = rt;
            }
        }
        let mut seq_keys: Vec<i64> = Vec::new();
        let mut ai: usize = 0;
        while ai < task.activities.len()
            invariant
                ai <= task.activities@.len(),
                seq_keys@.len() == ai,
                forall|x: int| 0 <= x < ai ==> seq_keys@[x] == task.activities@[x].sequence,
            decreases task.activities@.len() - ai,
        {
            seq_keys.push(task.activities[ai].sequence as i64);
            ai += 1;
        }
        let act_order = stable_order(&seq_keys);
        proof {
            if uq {
                assert forall|i: int| 0 <= i < schedule.assignments@.len()
                    implies schedule.assignments@[i].task_id@ != tasks@[t as int].id@ by {
                    let ti = order@[tpos[i]] as int;
                    assert(schedule.assignments@[i].task_id@ == tasks@[ti].id@);
                    assert(tpos[i] < q);
                    assert(order@[tpos[i]] != order@[q as int]);
                    if ti < t {
                        assert(tasks@[ti].id@ != tasks@[t as int].id@);
                    } else {
                        assert(tasks@[t as int].id@ != tasks@[ti].id@);
                    }
                }
                lemma_no_task(schedule.assignments@, schedule.assignments@.len() as int, tasks@[t as int].id@);
            }
        }
        let mut p: usize = 0;
        while p < act_order.len()
            invariant
                p <= act_order@.len(),
                is_stable_order(seq_keys@, act_order@),
                seq_keys@.len() == task.activities@.len(),
                q < order@.len(),
                t == order@[q as int],
                t < tasks@.len(),
                *task == tasks@[t as int],
                is_stable_order(keys@, order@),
                keys@.len() == tasks@.len(),
                available@.len() == resources@.len(),
                last_category@.len() == resources@.len(),
                schedule.wf(),
                forall|v: int| 0 <= v < schedule.violations@.len() ==> #[trigger] overflow_record(tasks@, resources@, schedule.violations@[v]),
                forall|q2: int, j: int| 0 <= q2 < q && 0 <= j < tasks@[order@[q2] as int].activities@.len()
                    && placeable(tasks@, resources@, order@[q2] as int, j)
                    ==> #[trigger] covered(tasks@, resources@, start_time_ms, schedule, order@[q2] as int, j),
                forall|p2: int| 0 <= p2 < p && placeable(tasks@, resources@, t as int, act_order@[p2] as int)
                    ==> #[trigger] covered(tasks@, resources@, start_time_ms, schedule, t as int, act_order@[p2] as int),
                nn ==> cursor >= start_time_ms,
                nn ==> (task.release_time matches Some(rt) ==> cursor >= rt),
                nn == (durations_nonneg(tasks@) && setups_nonneg(*matrices)),
                tpos.len() == schedule.assignments@.len(),
                apos.len() == tpos.len(),
                ppos.len() == tpos.len(),
                forall|sl: int| 0 <= sl < resources@.len() && is_slot(resources@, resources@[sl].id@, sl)
                    ==> available@[sl] as int == #[trigger] free_at(schedule.assignments@, schedule.assignments@.len() as int, resources@[sl].id@, start_time_ms),
                forall|sl: int| 0 <= sl < resources@.len() && is_slot(resources@, resources@[sl].id@, sl)
                    ==> #[trigger] category_tracked(tasks@, order@, tpos, schedule.assignments@, last_category@[sl], resources@[sl].id@),
                uq == unique_task_ids(tasks@),
                forall|i: int, k: int| 0 <= i < k < tpos.len() && tpos[i] == tpos[k] ==> #[trigger] apos[i] != #[trigger] apos[k],
                uq ==> forall|v: int| 0 <= v < schedule.violations@.len() ==> #[trigger] justified(tasks@, resources@, *matrices,
                    start_time_ms, schedule.assignments@, schedule.violations@[v]),
                uq ==> forall|k: int| 0 <= k < tpos.len() ==> #[trigger] greedy_at(tasks@, resources@, *matrices, start_time_ms,
                    schedule.assignments@, k, order@[tpos[k]] as int, apos[k]),
                uq ==> cursor as int == ready_at(schedule.assignments@, schedule.assignments@.len() as int, tasks@[t as int], start_time_ms),
                forall|x: int| 0 <= x < seq_keys@.len() ==> seq_keys@[x] == task.activities@[x].sequence,
                forall|k: int| 0 <= k < tpos.len() ==> #[trigger] placed_from(tasks@, resources@, start_time_ms,
                    schedule.assignments@[k], order@[tpos[k]] as int, apos[k]),
                forall|i: int, k: int| 0 <= i < k < tpos.len() && tpos[i] == tpos[k]
                    ==> #[trigger] tasks@[order@[tpos[i]] as int].activities@[apos[i]].sequence
                        <= #[trigger] tasks@[order@[tpos[k]] as int].activities@[apos[k]].sequence,
                forall|k: int| 0 <= k < tpos.len() && tpos[k] == q
                    ==> 0 <= #[trigger] ppos[k] < p && apos[k] == act_order@[ppos[k]] as int,
                forall|k: int| 0 <= k < tpos.len() ==> 0 <= #[trigger] tpos[k] <= q,
                forall|i: int, k: int| 0 <= i < k < tpos.len() ==> #[trigger] tpos[i] <= #[trigger] tpos[k],
                forall|k: int| 0 <= k < tpos.len()
                    ==> schedule.assignments@[k].task_id@ == tasks@[order@[#[trigger] tpos[k]] as int].id@,
                forall|k: int| 0 <= k < schedule.assignments@.len()
                    ==> #[trigger] grounded(tasks@, resources@, start_time_ms, schedule.assignments@[k]),
                nn ==> forall|k: int, s: int| 0 <= k < schedule.assignments@.len()
                    && is_slot(resources@, schedule.assignments@[k].resource_id@, s)
                    ==> #[trigger] schedule.assignments@[k].end_ms <= #[trigger] available@[s],
                nn ==> forall|k: int| 0 <= k < tpos.len()
                    ==> #[trigger] schedule.assignments@[k].start_ms >= start_time_ms
                    && schedule.assignments@[k].end_ms >= schedule.assignments@[k].start_ms
                        && (tasks@[order@[tpos[k]] as int].release_time matches Some(rt)
                            ==> schedule.assignments@[k].start_ms >= rt),
                nn ==> resource_exclusive(schedule.assignments@),
                nn ==> forall|i: int, j: int| 0 <= i < j < tpos.len() && tpos[i] == tpos[j]
                    ==> schedule.assignments@[i].end_ms <= schedule.assignments@[j].start_ms,
                nn ==> forall|k: int| 0 <= k < tpos.len() && tpos[k] == q
                    ==> schedule.assignments@[k].end_ms <= cursor,
            decreases act_order@.len() - p,
        {
            let j = act_order[p];
            let ghost s0 = schedule;
            let activity: &Activity = &task.activities[j];
            let candidates = activity.candidate_resources();
            let mut best: Option<(usize, usize)> = None;
            let mut best_start: i64 = i64::MAX;
            let mut c: usize = 0;
            while c < candidates.len()
                invariant
                    c <= candidates@.len(),
                    candidates@ == activity.candidates(),
                    available@.len() == resources@.len(),
                    best matches Some((ci, s)) ==> ci < candidates@.len() && is_slot(resources@, candidates@[ci as int]@, s as int)
                        && best_start == (if available@[s as int] > cursor { available@[s as int] } else { cursor }),
                    best is None ==> forall|c2: int| 0 <= c2 < c ==> !#[trigger] has_slot(resources@, candidates@[c2]@),
                    forall|sl: int| 0 <= sl < resources@.len() && is_slot(resources@, resources@[sl].id@, sl)
                        ==> available@[sl] as int == #[trigger] free_at(schedule.assignments@, schedule.assignments@.len() as int, resources@[sl].id@, start_time_ms),
                    forall|c2: int| 0 <= c2 < c && has_slot(resources@, candidates@[c2]@)
                        ==> best is Some && best_start as int <= #[trigger] effective(schedule.assignments@, candidates@[c2]@, start_time_ms, cursor),
                    best matches Some((ci, s)) ==> best_start as int == effective(schedule.assignments@, candidates@[ci as int]@, start_time_ms, cursor)
                        && forall|c2: int| 0 <= c2 < ci && has_slot(resources@, candidates@[c2]@)
                            ==> best_start < #[trigger] effective(schedule.assignments@, candidates@[c2]@, start_time_ms, cursor),
                decreases candidates@.len() - c,
            {
                let found = find_slot(resources, &candidates[c]);
                proof {
                    if found is None {
                        if has_slot(resources@, candidates@[c as int]@) {
                            let s2 = choose|s2: int| #[trigger] is_slot(resources@, candidates@[c as int]@, s2);
                            assert(resources@[s2].id@ == candidates@[c as int]@);
                        }
                    }
                }
                if let Some(s) = found {
                    let eff = if available[s] > cursor { available[s] } else { cursor };
                    proof {
                        assert(resources@[s as int].id@ == candidates@[c as int]@);
                        assert(is_slot(resources@, resources@[s as int].id@, s as int));
                        assert(eff as int == effective(schedule.assignments@, candidates@[c as int]@, start_time_ms, cursor));
                    }
                    if best.is_none() || eff < best_start {
                        best_start = eff;
                        best = Some((c, s));
                    }
                }
                c += 1;
            }
            if let Some((ci, s)) = best {
                let rid = &candidates[ci];
                let setup: i64 = match &last_category[s] {
                    Some(prev) => matrices.get_transition_time(rid.as_str(), prev.as_str(), task.category.as_str()),
                    None => 0,
                };
                let end_wide: i128 = best_start as i128 + setup as i128 + activity.duration.process_ms as i128;
                if end_wide <= i64::MAX as i128 && end_wide >= i64::MIN as i128 {
                    let end = end_wide as i64;
                    let a = Assignment {
                        activity_id: activity.id.clone(),
                        task_id: task.id.clone(),
                        resource_id: rid.clone(),
                        start_ms: best_start,
                        end_ms: end,
                        setup_ms: setup,
                    };
                    proof {
                        assert(placed_from(tasks@, resources@, start_time_ms, a, t as int, j as int)) by {
                            assert(activity.candidates()[ci as int]@ == a.resource_id@);
                            assert(is_slot(resources@, a.resource_id@, s as int));
                        }
                        if nn {
                            assert(tasks@[t as int].activities@[j as int].duration.process_ms >= 0);
                            if last_category@[s as int] is Some {
                                lemma_setup_nonneg(*matrices, rid@, last_category@[s as int]->0@, task.category@);
                            }
                            assert(setup >= 0);
                        }
                    }
                    let ghost old_sched = schedule.assignments@;
                    let ghost old_avail = available@;
                    let ghost old_lc = last_category@;
                    let ghost cur0 = cursor;
                    let ghost old_tpos = tpos;
                    schedule.add_assignment(a);
                    proof {
                        assert(placed_from(tasks@, resources@, start_time_ms, schedule.assignments@[s0.assignments@.len() as int], t as int, j as int));
                        assert(covered(tasks@, resources@, start_time_ms, schedule, t as int, j as int));
                    }
                    available.set(s, end);
                    last_category.set(s, Some(task.category.clone()));
                    cursor = end;
                    proof {
                        tpos = tpos.push(q as int);
                        apos = apos.push(j as int);
                        ppos = ppos.push(p as int);
                        let n = old_sched.len();
                        assert(schedule.assignments@[n as int] == a);
                        assert forall|k: int| 0 <= k < schedule.assignments@.len()
                            implies #[trigger] grounded(tasks@, resources@, start_time_ms, schedule.assignments@[k]) by {
                            if k < n {
                                assert(schedule.assignments@[k] == old_sched[k]);
                            }
                        }
                        if nn {
                            assert forall|k: int, s2: int| 0 <= k < schedule.assignments@.len()
                                && is_slot(resources@, schedule.assignments@[k].resource_id@, s2)
                                implies #[trigger] schedule.assignments@[k].end_ms <= #[trigger] available@[s2] by {
                                if k < n {
                                    assert(schedule.assignments@[k] == old_sched[k]);
                                    if s2 == s {
                                        assert(old_sched[k].end_ms <= old_avail[s2]);
                                    } else {
                                        assert(available@[s2] == old_avail[s2]);
                                    }
                                } else {
                                    assert(s2 == s as int);
                                }
                            }
                            assert forall|i: int, k: int|
                                0 <= i < k < schedule.assignments@.len()
                                    && schedule.assignments@[i].resource_id@ == schedule.assignments@[k].resource_id@
                                implies schedule.assignments@[i].end_ms <= schedule.assignments@[k].start_ms by {
                                assert(schedule.assignments@[i] == old_sched[i]);
                                if k == n {
                                    assert(is_slot(resources@, old_sched[i].resource_id@, s as int));
                                    assert(old_sched[i].end_ms <= old_avail[s as int]);
                                } else {
                                    assert(schedule.assignments@[k] == old_sched[k]);
                                }
                            }
                            assert forall|i: int, k: int| 0 <= i < k < tpos.len() && tpos[i] == tpos[k]
                                implies schedule.assignments@[i].end_ms <= schedule.assignments@[k].start_ms by {
                                assert(schedule.assignments@[i] == old_sched[i]);
                                if k < n {
                                    assert(schedule.assignments@[k] == old_sched[k]);
                                }
                            }
                            assert forall|k: int| 0 <= k < tpos.len()
                                implies #[trigger] schedule.assignments@[k].start_ms >= start_time_ms
                    && schedule.assignments@[k].end_ms >= schedule.assignments@[k].start_ms
                                    && (tasks@[order@[tpos[k]] as int].release_time matches Some(rt)
                                        ==> schedule.assignments@[k].start_ms >= rt) by {
                                if k < n {
                                    assert(schedule.assignments@[k] == old_sched[k]);
                                }
                            }
                            assert forall|k: int| 0 <= k < tpos.len() && tpos[k] == q
                                implies schedule.assignments@[k].end_ms <= cursor by {
                                if k < n {
                                    assert(schedule.assignments@[k] == old_sched[k]);
                                }
                            }
                        }
                        let x = a.resource_id@;
                        let sa = schedule.assignments@;
                        assert(sa == old_sched.push(a));
                        assert(is_slot(resources@, x, s as int));
                        assert forall|sl: int| 0 <= sl < resources@.len() && is_slot(resources@, resources@[sl].id@, sl)
                            implies available@[sl] as int == #[trigger] free_at(sa, sa.len() as int, resources@[sl].id@, start_time_ms) by {
                            let y = resources@[sl].id@;
                            lemma_last_on_push(old_sched, a, n as int, y);
                            if sl != s {
                                if y == x {
                                    if sl < s {
                                        assert(resources@[sl].id@ != x);
                                    } else {
                                        assert(resources@[s as int].id@ != y);
                                    }
                                }
                                assert(available@[sl] == old_avail[sl]);
                                assert(last_category@[sl] == old_lc[sl]);
                                assert(free_at(old_sched, n as int, y, start_time_ms) == old_avail[sl] as int);
                                assert(category_tracked(tasks@, order@, old_tpos, old_sched, old_lc[sl], y));
                                lemma_last_on_bound(old_sched, n as int, y);
                                if let Some(i) = last_on(old_sched, n as int, y) {
                                    assert(tpos[i] == old_tpos[i]);
                                    assert(sa[i] == old_sched[i]);
                                }
                            } else {
                                assert(y == x);
                                assert(tpos[n as int] == q as int);
                            }
                        }
                        assert forall|sl: int| 0 <= sl < resources@.len() && is_slot(resources@, resources@[sl].id@, sl)
                            implies #[trigger] category_tracked(tasks@, order@, tpos, sa, last_category@[sl], resources@[sl].id@) by {
                            let y = resources@[sl].id@;
                            lemma_last_on_push(old_sched, a, n as int, y);
                            if sl != s {
                                if y == x {
                                    if sl < s {
                                        assert(resources@[sl].id@ != x);
                                    } else {
                                        assert(resources@[s as int].id@ != y);
                                    }
                                }
                                assert(available@[sl] == old_avail[sl]);
                                assert(last_category@[sl] == old_lc[sl]);
                                assert(free_at(old_sched, n as int, y, start_time_ms) == old_avail[sl] as int);
                                assert(category_tracked(tasks@, order@, old_tpos, old_sched, old_lc[sl], y));
                                lemma_last_on_bound(old_sched, n as int, y);
                                if let Some(i) = last_on(old_sched, n as int, y) {
                                    assert(tpos[i] == old_tpos[i]);
                                    assert(sa[i] == old_sched[i]);
                                }
                            } else {
                                assert(y == x);
                                assert(tpos[n as int] == q as int);
                            }
                        }
                        if uq {
                            assert forall|k: int| 0 <= k < tpos.len() implies #[trigger] greedy_at(tasks@, resources@, *matrices, start_time_ms,
                                sa, k, order@[tpos[k]] as int, apos[k]) by {
                                if k < n {
                                    assert(tpos[k] == old_tpos[k]);
                                    lemma_greedy_push(tasks@, resources@, *matrices, start_time_ms, old_sched, a, k, order@[tpos[k]] as int, apos[k]);
                                } else {
                                    assert(tpos[k] == q as int && apos[k] == j as int);
                                    let cands = tasks@[t as int].activities@[j as int].candidates();
                                    lemma_earliest_push(old_sched, a, n as int, x, *task, start_time_ms);
                                    assert(sa[n as int] == a);
                                    assert(a.start_ms == earliest(sa, n as int, x, *task, start_time_ms));
                                    assert forall|c2: int| 0 <= c2 < cands.len() && has_slot(resources@, cands[c2]@)
                                        implies a.start_ms <= #[trigger] earliest(sa, n as int, cands[c2]@, *task, start_time_ms) by {
                                        lemma_earliest_push(old_sched, a, n as int, cands[c2]@, *task, start_time_ms);
                                        assert(best_start as int <= effective(old_sched, candidates@[c2]@, start_time_ms, cur0));
                                    }
                                    assert forall|c2: int| 0 <= c2 < ci && has_slot(resources@, cands[c2]@)
                                        implies a.start_ms < #[trigger] earliest(sa, n as int, cands[c2]@, *task, start_time_ms) by {
                                        lemma_earliest_push(old_sched, a, n as int, cands[c2]@, *task, start_time_ms);
                                        assert(best_start < effective(old_sched, candidates@[c2]@, start_time_ms, cur0));
                                    }
                                    assert(cands[ci as int]@ == a.resource_id@);
                                    lemma_last_on_push(old_sched, a, n as int, x);
                                    lemma_last_on_bound(old_sched, n as int, x);
                                    assert(category_tracked(tasks@, order@, old_tpos, old_sched, old_lc[s as int], x)) by {
                                        assert(resources@[s as int].id@ == x);
                                    }
                                    if let Some(i) = last_on(old_sched, n as int, x) {
                                        assert(sa[i] == old_sched[i]);
                                        lemma_category_of(tasks@, order@[old_tpos[i]] as int);
                                    }
                                    assert(greedy_at(tasks@, resources@, *matrices, start_time_ms, sa, k, t as int, j as int));
                                }
                            }
                            assert(last_of_task(sa, (n + 1) as int, task.id@) == Some(n as int));
                            assert forall|w: int| 0 <= w < schedule.violations@.len()
                                implies #[trigger] justified(tasks@, resources@, *matrices, start_time_ms, sa, schedule.violations@[w]) by {
                                assert(justified(tasks@, resources@, *matrices, start_time_ms, old_sched, schedule.violations@[w]));
                                let (n2, t2, j2) = choose|n2: int, t2: int, j2: int| #[trigger] overflow_at(tasks@, resources@, *matrices, start_time_ms, old_sched, n2, t2, j2)
                                    && tasks@[t2].activities@[j2].id@ == schedule.violations@[w].entity_id@;
                                lemma_overflow_push(tasks@, resources@, *matrices, start_time_ms, old_sched, a, n2, t2, j2);
                            }
                        }
                        assert forall|k: int| 0 <= k < tpos.len() implies #[trigger] placed_from(tasks@, resources@, start_time_ms,
                            schedule.assignments@[k], order@[tpos[k]] as int, apos[k]) by {
                            if k < n {
                                assert(schedule.assignments@[k] == old_sched[k]);
                            }
                        }
                        assert forall|i: int, k: int| 0 <= i < k < tpos.len() && tpos[i] == tpos[k]
                            implies #[trigger] tasks@[order@[tpos[i]] as int].activities@[apos[i]].sequence
                                <= #[trigger] tasks@[order@[tpos[k]] as int].activities@[apos[k]].sequence by {
                            if k == n {
                                assert(ppos[i] < p);
                                assert(seq_keys@[act_order@[ppos[i]] as int] <= seq_keys@[act_order@[p as int] as int]);
                            }
                        }
                        assert forall|k: int| 0 <= k < tpos.len() && tpos[k] == q
                            implies 0 <= #[trigger] ppos[k] < p + 1 && apos[k] == act_order@[ppos[k]] as int by {}
                        assert forall|i: int, k: int| 0 <= i < k < tpos.len() && tpos[i] == tpos[k]
                            implies #[trigger] apos[i] != #[trigger] apos[k] by {
                            if k == n {
                                assert(ppos[i] < p);
                                assert(act_order@[ppos[i]] != act_order@[p as int]);
                            }
                        }
                        assert forall|k: int| 0 <= k < tpos.len()
                            implies schedule.assignments@[k].task_id@ == tasks@[order@[#[trigger] tpos[k]] as int].id@ by {
                            if k < n {
                                assert(schedule.assignments@[k] == old_sched[k]);
                            }
                        }
                    }
                } else {
                    let kind = TIME_OVERFLOW.to_owned();
                    proof {
                        if uq {
                            let sa = schedule.assignments@;
                            let n = sa.len() as int;
                            let x = candidates@[ci as int]@;
                            let cands = tasks@[t as int].activities@[j as int].candidates();
                            assert(cands == candidates@);
                            assert(is_slot(resources@, x, s as int));
                            assert(resources@[s as int].id@ == x);
                            assert(has_slot(resources@, x));
                            assert(earliest(sa, n, x, *task, start_time_ms) == best_start as int);
                            assert forall|c2: int| 0 <= c2 < cands.len() && has_slot(resources@, cands[c2]@)
                                implies earliest(sa, n, x, *task, start_time_ms) <= #[trigger] earliest(sa, n, cands[c2]@, *task, start_time_ms) by {
                                assert(best_start as int <= effective(sa, candidates@[c2]@, start_time_ms, cursor));
                            }
                            assert forall|c2: int| 0 <= c2 < ci && has_slot(resources@, cands[c2]@)
                                implies earliest(sa, n, x, *task, start_time_ms) < #[trigger] earliest(sa, n, cands[c2]@, *task, start_time_ms) by {
                                assert(best_start < effective(sa, candidates@[c2]@, start_time_ms, cursor));
                            }
                            assert(category_tracked(tasks@, order@, tpos, sa, last_category@[s as int], x));
                            lemma_last_on_bound(sa, n, x);
                            if let Some(i) = last_on(sa, n, x) {
                                lemma_category_of(tasks@, order@[tpos[i]] as int);
                            }
                            assert(setup_before(tasks@, *matrices, sa, n, x, *task) == setup as int);
                            assert(overflows_on(tasks@, resources@, *matrices, start_time_ms, sa, n, t as int, j as int, ci as int));
                            assert(overflow_at(tasks@, resources@, *matrices, start_time_ms, sa, n, t as int, j as int));
                        }
                        assert(placeable(tasks@, resources@, t as int, j as int)) by {
                            assert(has_slot(resources@, activity.candidates()[ci as int]@)) by {
                                assert(is_slot(resources@, candidates@[ci as int]@, s as int));
                            }
                        }
                    }
                    let v = Violation {
                        violation_type: ViolationType::Custom(kind),
                        entity_id: activity.id.clone(),
                        message: activity.id.clone(),
                        severity: 100,
                    };
                    let ghost vv = v;
                    schedule.add_violation(v);
                    proof {
                        assert(vv.violation_type matches ViolationType::Custom(k) && k@ == TIME_OVERFLOW@);
                        assert(placeable(tasks@, resources@, t as int, j as int));
                        assert(tasks@[t as int].activities@[j as int].id@ == vv.entity_id@);
                        assert(overflow_record(tasks@, resources@, vv));
                        assert forall|w: int| 0 <= w < schedule.violations@.len()
                            implies #[trigger] overflow_record(tasks@, resources@, schedule.violations@[w]) by {
                            if w < s0.violations@.len() {
                                assert(schedule.violations@[w] == s0.violations@[w]);
                            }
                        }
                        assert(schedule.violations@[s0.violations@.len() as int].entity_id@ == tasks@[t as int].activities@[j as int].id@);
                        assert(covered(tasks@, resources@, start_time_ms, schedule, t as int, j as int));
                        if uq {
                            let sa = schedule.assignments@;
                            assert(overflow_at(tasks@, resources@, *matrices, start_time_ms, sa, sa.len() as int, t as int, j as int));
                            assert forall|w: int| 0 <= w < schedule.violations@.len()
                                implies #[trigger] justified(tasks@, resources@, *matrices, start_time_ms, sa, schedule.violations@[w]) by {
                                if w < s0.violations@.len() {
                                    assert(schedule.violations@[w] == s0.violations@[w]);
                                } else {
                                    assert(schedule.violations@[w] == vv);
                                }
                            }
                        }
                    }
                }
            } else {
                proof {
                    assert(!placeable(tasks@, resources@, t as int, j as int));
                }
            }
            proof {
                assert forall|q2: int, j2: int| 0 <= q2 < q && 0 <= j2 < tasks@[order@[q2] as int].activities@.len()
                    && placeable(tasks@, resources@, order@[q2] as int, j2)
                    implies #[trigger] covered(tasks@, resources@, start_time_ms, schedule, order@[q2] as int, j2) by {
                    lemma_covered_grows(tasks@, resources@, start_time_ms, s0, schedule, order@[q2] as int, j2);
                }
                assert forall|p2: int| 0 <= p2 < p + 1 && placeable(tasks@, resources@, t as int, act_order@[p2] as int)
                    implies #[trigger] covered(tasks@, resources@, start_time_ms, schedule, t as int, act_order@[p2] as int) by {
                    if p2 < p {
                        lemma_covered_grows(tasks@, resources@, start_time_ms, s0, schedule, t as int, act_order@[p2] as int);
                    }
                }
            }
            p += 1;
        }
        proof {
            assert forall|q2: int, j2: int| 0 <= q2 < q + 1 && 0 <= j2 < tasks@[order@[q2] as int].activities@.len()
                && placeable(tasks@, resources@, order@[q2] as int, j2)
                implies #[trigger] covered(tasks@, resources@, start_time_ms, schedule, order@[q2] as int, j2) by {
                if q2 == q {
                    assert(crate::scheduler::order::listed(act_order@, j2));
                    let p2 = choose|p2: int| 0 <= p2 < act_order@.len() && act_order@[p2] == j2;
                    assert(placeable(tasks@, resources@, t as int, act_order@[p2] as int));
                }
            }
        }
        q += 1;
    }
    proof {
        assert forall|t2: int, j2: int| 0 <= t2 < tasks@.len() && 0 <= j2 < tasks@[t2].activities@.len()
            && placeable(tasks@, resources@, t2, j2)
            implies #[trigger] covered(tasks@, resources@, start_time_ms, schedule, t2, j2) by {
            assert(crate::scheduler::order::listed(order@, t2));
            let q2 = choose|q2: int| 0 <= q2 < order@.len() && order@[q2] == t2;
            assert(covered(tasks@, resources@, start_time_ms, schedule, order@[q2] as int, j2));
        }
    }
    proof {
        if nn && unique_task_ids(tasks@) {
            assert forall|k: int, t: int|
                0 <= k < schedule.assignments@.len() && 0 <= t < tasks@.len()
                    && #[trigger] schedule.assignments@[k].task_id@ == #[trigger] tasks@[t].id@
                    && tasks@[t].release_time is Some
            implies schedule.assignments@[k].start_ms >= tasks@[t].release_time->0 by {
                let tk = order@[tpos[k]] as int;
                if tk != t {
                    if tk < t {
                        assert(tasks@[tk].id@ != tasks@[t].id@);
                    } else {
                        assert(tasks@[t].id@ != tasks@[tk].id@);
                    }
                }
            }
            assert forall|i: int, k: int|
                0 <= i < k < schedule.assignments@.len()
                    && schedule.assignments@[i].task_id@ == schedule.assignments@[k].task_id@
            implies schedule.assignments@[i].end_ms <= schedule.assignments@[k].start_ms by {
                let ti2 = order@[tpos[i]] as int;
                let tk = order@[tpos[k]] as int;
                assert(tasks@[ti2].id@ == tasks@[tk].id@);
                if ti2 != tk {
                    if ti2 < tk {
                        assert(tasks@[ti2].id@ != tasks@[tk].id@);
                    } else {
                        assert(tasks@[tk].id@ != tasks@[ti2].id@);
                    }
                }
                if tpos[i] != tpos[k] {
                    if tpos[i] < tpos[k] {
                        assert(order@[tpos[i]] != order@[tpos[k]]);
                    } else {
                        assert(order@[tpos[k]] != order@[tpos[i]]);
                    }
                }
            }
        }
    }
    proof {
        if nn && unique_task_ids(tasks@) && unique_activity_ids(tasks@) {
            let a = schedule.assignments@;
            assert forall|k1: int, k2: int, t: int, j1: int, j2: int|
                0 <= k1 < a.len() && 0 <= k2 < a.len() && #[trigger] placed_from(tasks@, resources@, start_time_ms, a[k1], t, j1)
                    && #[trigger] placed_from(tasks@, resources@, start_time_ms, a[k2], t, j2)
                    && tasks@[t].activities@[j1].sequence < tasks@[t].activities@[j2].sequence
                implies a[k1].end_ms <= a[k2].start_ms by {
                let t1 = order@[tpos[k1]] as int;
                let t2 = order@[tpos[k2]] as int;
                assert(placed_from(tasks@, resources@, start_time_ms, a[k1], t1, apos[k1]));
                assert(placed_from(tasks@, resources@, start_time_ms, a[k2], t2, apos[k2]));
                if t1 != t {
                    if t1 < t {
                        assert(tasks@[t1].id@ != tasks@[t].id@);
                    } else {
                        assert(tasks@[t].id@ != tasks@[t1].id@);
                    }
                }
                if t2 != t {
                    if t2 < t {
                        assert(tasks@[t2].id@ != tasks@[t].id@);
                    } else {
                        assert(tasks@[t].id@ != tasks@[t2].id@);
                    }
                }
                if apos[k1] != j1 {
                    if apos[k1] < j1 {
                        assert(tasks@[t].activities@[apos[k1]].id@ != tasks@[t].activities@[j1].id@);
                    } else {
                        assert(tasks@[t].activities@[j1].id@ != tasks@[t].activities@[apos[k1]].id@);
                    }
                }
                if apos[k2] != j2 {
                    if apos[k2] < j2 {
                        assert(tasks@[t].activities@[apos[k2]].id@ != tasks@[t].activities@[j2].id@);
                    } else {
                        assert(tasks@[t].activities@[j2].id@ != tasks@[t].activities@[apos[k2]].id@);
                    }
                }
                if tpos[k1] != tpos[k2] {
                    if tpos[k1] < tpos[k2] {
                        assert(order@[tpos[k1]] != order@[tpos[k2]]);
                    } else {
                        assert(order@[tpos[k2]] != order@[tpos[k1]]);
                    }
                }
                if k2 < k1 {
                    assert(tasks@[order@[tpos[k2]] as int].activities@[apos[k2]].sequence
                        <= tasks@[order@[tpos[k1]] as int].activities@[apos[k1]].sequence);
                }
                assert(k1 != k2);
                if k1 < k2 {
                    assert(a[k1].task_id@ == a[k2].task_id@);
                }
            }
        }
    }
    proof {
        if uq && unique_activity_ids(tasks@) {
            let a = schedule.assignments@;
            assert forall|k: int, t: int, j: int|
                0 <= k < a.len() && #[trigger] placed_from(tasks@, resources@, start_time_ms, a[k], t, j)
                implies greedy_at(tasks@, resources@, *matrices, start_time_ms, a, k, t, j) by {
                let t1 = order@[tpos[k]] as int;
                assert(placed_from(tasks@, resources@, start_time_ms, a[k], t1, apos[k]));
                if t1 != t {
                    if t1 < t {
                        assert(tasks@[t1].id@ != tasks@[t].id@);
                    } else {
                        assert(tasks@[t].id@ != tasks@[t1].id@);
                    }
                }
                if apos[k] != j {
                    if apos[k] < j {
                        assert(tasks@[t].activities@[apos[k]].id@ != tasks@[t].activities@[j].id@);
                    } else {
                        assert(tasks@[t].activities@[j].id@ != tasks@[t].activities@[apos[k]].id@);
                    }
                }
                assert(greedy_at(tasks@, resources@, *matrices, start_time_ms, a, k, t1, apos[k]));
            }
        }
    }
    proof {
        if uq {
            let a = schedule.assignments@;
            assert forall|k1: int, k2: int, t1: int, j1: int, t2: int, j2: int|
                0 <= k1 < k2 < a.len() && #[trigger] placed_from(tasks@, resources@, start_time_ms, a[k1], t1, j1)
                    && #[trigger] placed_from(tasks@, resources@, start_time_ms, a[k2], t2, j2)
                implies tasks@[t1].priority > tasks@[t2].priority || (tasks@[t1].priority == tasks@[t2].priority && t1 <= t2) by {
                let u1 = order@[tpos[k1]] as int;
                let u2 = order@[tpos[k2]] as int;
                assert(placed_from(tasks@, resources@, start_time_ms, a[k1], u1, apos[k1]));
                assert(placed_from(tasks@, resources@, start_time_ms, a[k2], u2, apos[k2]));
                if u1 != t1 {
                    if u1 < t1 {
                        assert(tasks@[u1].id@ != tasks@[t1].id@);
                    } else {
                        assert(tasks@[t1].id@ != tasks@[u1].id@);
                    }
                }
                if u2 != t2 {
                    if u2 < t2 {
                        assert(tasks@[u2].id@ != tasks@[t2].id@);
                    } else {
                        assert(tasks@[t2].id@ != tasks@[u2].id@);
                    }
                }
                assert(tpos[k1] <= tpos[k2]);
                if tpos[k1] < tpos[k2] {
                    assert(keys@[order@[tpos[k1]] as int] <= keys@[order@[tpos[k2]] as int]);
                    if keys@[order@[tpos[k1]] as int] == keys@[order@[tpos[k2]] as int] {
                        assert(order@[tpos[k1]] < order@[tpos[k2]]);
                    }
                }
            }
        }
    }
    proof {
        if uq && unique_activity_ids(tasks@) {
            let a = schedule.assignments@;
            assert forall|k1: int, k2: int, t: int, j: int|
                0 <= k1 < k2 < a.len() && #[trigger] placed_from(tasks@, resources@, start_time_ms, a[k1], t, j)
                implies !#[trigger] placed_from(tasks@, resources@, start_time_ms, a[k2], t, j) by {
                if placed_from(tasks@, resources@, start_time_ms, a[k2], t, j) {
                    let u1 = order@[tpos[k1]] as int;
                    let u2 = order@[tpos[k2]] as int;
                    assert(placed_from(tasks@, resources@, start_time_ms, a[k1], u1, apos[k1]));
                    assert(placed_from(tasks@, resources@, start_time_ms, a[k2], u2, apos[k2]));
                    if u1 != t {
                        if u1 < t { assert(tasks@[u1].id@ != tasks@[t].id@); } else { assert(tasks@[t].id@ != tasks@[u1].id@); }
                    }
                    if u2 != t {
                        if u2 < t { assert(tasks@[u2].id@ != tasks@[t].id@); } else { assert(tasks@[t].id@ != tasks@[u2].id@); }
                    }
                    if apos[k1] != j {
                        if apos[k1] < j {
                            assert(tasks@[t].activities@[apos[k1]].id@ != tasks@[t].activities@[j].id@);
                        } else {
                            assert(tasks@[t].activities@[j].id@ != tasks@[t].activities@[apos[k1]].id@);
                        }
                    }
                    if apos[k2] != j {
                        if apos[k2] < j {
                            assert(tasks@[t].activities@[apos[k2]].id@ != tasks@[t].activities@[j].id@);
                        } else {
                            assert(tasks@[t].activities@[j].id@ != tasks@[t].activities@[apos[k2]].id@);
                        }
                    }
                    if tpos[k1] != tpos[k2] {
                        if tpos[k1] < tpos[k2] {
                            assert(order@[tpos[k1]] != order@[tpos[k2]]);
                        } else {
                            assert(order@[tpos[k2]] != order@[tpos[k1]]);
                        }
                    }
                    assert(apos[k1] != apos[k2]);
                }
            }
        }
    }
    proof {
        if uq && unique_activity_ids(tasks@) {
            let a = schedule.assignments@;
            assert forall|k1: int, k2: int, t: int, j1: int, j2: int|
                0 <= k1 < k2 < a.len() && #[trigger] placed_from(tasks@, resources@, start_time_ms, a[k1], t, j1)
                    && #[trigger] placed_from(tasks@, resources@, start_time_ms, a[k2], t, j2)
                implies tasks@[t].activities@[j1].sequence <= tasks@[t].activities@[j2].sequence by {
                let u1 = order@[tpos[k1]] as int;
                let u2 = order@[tpos[k2]] as int;
                assert(placed_from(tasks@, resources@, start_time_ms, a[k1], u1, apos[k1]));
                assert(placed_from(tasks@, resources@, start_time_ms, a[k2], u2, apos[k2]));
                if u1 != t {
                    if u1 < t { assert(tasks@[u1].id@ != tasks@[t].id@); } else { assert(tasks@[t].id@ != tasks@[u1].id@); }
                }
                if u2 != t {
                    if u2 < t { assert(tasks@[u2].id@ != tasks@[t].id@); } else { assert(tasks@[t].id@ != tasks@[u2].id@); }
                }
                if apos[k1] != j1 {
                    if apos[k1] < j1 {
                        assert(tasks@[t].activities@[apos[k1]].id@ != tasks@[t].activities@[j1].id@);
                    } else {
                        assert(tasks@[t].activities@[j1].id@ != tasks@[t].activities@[apos[k1]].id@);
                    }
                }
                if apos[k2] != j2 {
                    if apos[k2] < j2 {
                        assert(tasks@[t].activities@[apos[k2]].id@ != tasks@[t].activities@[j2].id@);
                    } else {
                        assert(tasks@[t].activities@[j2].id@ != tasks@[t].activities@[apos[k2]].id@);
                    }
                }
                if tpos[k1] != tpos[k2] {
                    if tpos[k1] < tpos[k2] {
                        assert(order@[tpos[k1]] != order@[tpos[k2]]);
                    } else {
                        assert(order@[tpos[k2]] != order@[tpos[k1]]);
                    }
                }
            }
        }
    }
    schedule
}

} // verus!

verus! {

/// Greedy priority scheduler with optional sequence-dependent setup times.
#[derive(Debug, Clone)]
pub struct SimpleScheduler {
    transition_matrices: TransitionMatrixCollection,
}

/// Everything a scheduling run needs.
#[derive(Debug, Clone)]
pub struct ScheduleRequest {
    pub tasks: Vec<Task>,
    pub resources: Vec<Resource>,
    pub start_time_ms: i64,
    pub transition_matrices: TransitionMatrixCollection,
}

impl ScheduleRequest {
    /// A request starting at time 0 without setup times.
    pub fn new(tasks: Vec<Task>, resources: Vec<Resource>) -> (r: Self)
        ensures
            r.tasks == tasks,
            r.resources == resources,
            r.start_time_ms == 0,
            r.transition_matrices.matrices@.len() == 0,
    {
        ScheduleRequest { tasks, resources, start_time_ms: 0, transition_matrices: TransitionMatrixCollection::new() }
    }

    pub fn with_start_time(self, start_time_ms: i64) -> (r: Self)
        ensures
            r == (ScheduleRequest { start_time_ms, ..self }),
    {
        ScheduleRequest { start_time_ms, ..self }
    }

    pub fn with_transition_matrices(self, matrices: TransitionMatrixCollection) -> (r: Self)
        ensures
            r == (ScheduleRequest { transition_matrices: matrices, ..self }),
    {
        ScheduleRequest { transition_matrices: matrices, ..self }
    }
}

impl SimpleScheduler {
    /// The setup times this scheduler applies.
    pub closed spec fn matrices(&self) -> TransitionMatrixCollection {
        self.transition_matrices
    }

    /// A scheduler without setup times.
    pub fn new() -> (r: Self)
        ensures
            r.matrices().matrices@.len() == 0,
    {
        SimpleScheduler { transition_matrices: TransitionMatrixCollection::new() }
    }

    pub fn with_transition_matrices(self, matrices: TransitionMatrixCollection) -> (r: Self)
        ensures
            r.matrices() == matrices,
    {
        SimpleScheduler { transition_matrices: matrices }
    }

    /// Places every activity that has a known candidate resource: tasks by
    /// descending priority (ties in input order), activities by ascending
    /// sequence, each on the candidate where it can start first (ties in
    /// candidate order), after the previous activity of its task and after
    /// the resource's previous activity plus the setup time from that
    /// activity's task category. Activities whose end would not fit in 64
    /// bits are left out and recorded as violations.
    pub fn schedule(&self, tasks: &[Task], resources: &[Resource], start_time_ms: i64) -> (r: Schedule)
        ensures
            r.wf(),
            complete(tasks@, resources@, start_time_ms, r),
            forall|v: int| 0 <= v < r.violations@.len() ==> #[trigger] overflow_record(tasks@, resources@, r.violations@[v]),
            forall|k: int| 0 <= k < r.assignments@.len()
                ==> #[trigger] grounded(tasks@, resources@, start_time_ms, r.assignments@[k]),
            durations_nonneg(tasks@) && setups_nonneg(self.matrices()) ==> resource_exclusive(r.assignments@),
            durations_nonneg(tasks@) && setups_nonneg(self.matrices()) ==> forall|k: int|
                0 <= k < r.assignments@.len() ==> #[trigger] r.assignments@[k].start_ms >= start_time_ms
                    && r.assignments@[k].end_ms >= r.assignments@[k].start_ms,
            durations_nonneg(tasks@) && setups_nonneg(self.matrices()) && unique_task_ids(tasks@) ==> forall|k: int, t: int|
                0 <= k < r.assignments@.len() && 0 <= t < tasks@.len()
                    && #[trigger] r.assignments@[k].task_id@ == #[trigger] tasks@[t].id@
                    && tasks@[t].release_time is Some
                    ==> r.assignments@[k].start_ms >= tasks@[t].release_time->0,
            durations_nonneg(tasks@) && setups_nonneg(self.matrices()) && unique_task_ids(tasks@)
                ==> task_ordered(r.assignments@),
            durations_nonneg(tasks@) && setups_nonneg(self.matrices()) && unique_task_ids(tasks@)
                && unique_activity_ids(tasks@) ==> sequence_ordered(tasks@, resources@, start_time_ms, r.assignments@),
            unique_task_ids(tasks@) && unique_activity_ids(tasks@)
                ==> greedy(tasks@, resources@, self.matrices(), start_time_ms, r.assignments@),
            unique_task_ids(tasks@) ==> priority_ordered(tasks@, resources@, start_time_ms, r.assignments@),
            unique_task_ids(tasks@) ==> violations_justified(tasks@, resources@, self.matrices(), start_time_ms, r),
            unique_task_ids(tasks@) && unique_activity_ids(tasks@) ==> emitted_by_sequence(tasks@, resources@, start_time_ms, r.assignments@),
            unique_task_ids(tasks@) && unique_activity_ids(tasks@) ==> placed_once(tasks@, resources@, start_time_ms, r.assignments@),
    {
        greedy_schedule(&self.transition_matrices, tasks, resources, start_time_ms)
    }

    /// Schedules a request with the request's own setup times.
    pub fn schedule_request(&self, request: &ScheduleRequest) -> (r: Schedule)
        ensures
            r.wf(),
            complete(request.tasks@, request.resources@, request.start_time_ms, r),
            forall|v: int| 0 <= v < r.violations@.len()
                ==> #[trigger] overflow_record(request.tasks@, request.resources@, r.violations@[v]),
            forall|k: int| 0 <= k < r.assignments@.len()
                ==> #[trigger] grounded(request.tasks@, request.resources@, request.start_time_ms, r.assignments@[k]),
            durations_nonneg(request.tasks@) && setups_nonneg(request.transition_matrices)
                ==> resource_exclusive(r.assignments@),
            durations_nonneg(request.tasks@) && setups_nonneg(request.transition_matrices) && unique_task_ids(request.tasks@)
                ==> task_ordered(r.assignments@),
            unique_task_ids(request.tasks@) && unique_activity_ids(request.tasks@)
                ==> greedy(request.tasks@, request.resources@, request.transition_matrices, request.start_time_ms, r.assignments@),
            unique_task_ids(request.tasks@) ==> priority_ordered(request.tasks@, request.resources@, request.start_time_ms, r.assignments@),
            unique_task_ids(request.tasks@) ==> violations_justified(request.tasks@, request.resources@, request.transition_matrices, request.start_time_ms, r),
            unique_task_ids(request.tasks@) && unique_activity_ids(request.tasks@) ==> emitted_by_sequence(request.tasks@, request.resources@, request.start_time_ms, r.assignments@),
            unique_task_ids(request.tasks@) && unique_activity_ids(request.tasks@) ==> placed_once(request.tasks@, request.resources@, request.start_time_ms, r.assignments@),
    {
        greedy_schedule(&request.transition_matrices, request.tasks.as_slice(), request.resources.as_slice(), request.start_time_ms)
    }
}

impl Default for SimpleScheduler {
    fn default() -> (r: Self)
        ensures
            r.matrices().matrices@.len() == 0,
    {
        SimpleScheduler::new()
    }
}

} // verus!

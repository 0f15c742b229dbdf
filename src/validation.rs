//! Checks on scheduling input before a run.
use vstd::prelude::*;
use crate::models::resource::Resource;
use crate::models::task::Task;
use vstd::string::StringExecFns;

verus! {

/// Code of an error for a task id used twice.
pub const DUPLICATE_TASK: &'static str = "DUPLICATE_TASK";
/// Code of an error for a resource id used twice.
pub const DUPLICATE_RESOURCE: &'static str = "DUPLICATE_RESOURCE";
/// Code of an error for a candidate that names no resource.
pub const INVALID_RESOURCE_REF: &'static str = "INVALID_RESOURCE_REF";

/// One problem found in the input.
#[derive(Debug, Clone)]
pub struct ValidationError {
    pub code: String,
    pub message: String,
    pub entity_id: Option<String>,
}

/// Outcome of a validation.
#[derive(Debug, Clone)]
pub struct ValidationResult {
    pub is_valid: bool,
    pub errors: Vec<ValidationError>,
    pub warnings: Vec<String>,
}

/// Some error of the list carries the code.
pub open spec fn has_code(errs: Seq<ValidationError>, code: Seq<char>) -> bool {
    exists|i: int| 0 <= i < errs.len() && #[trigger] errs[i].code@ == code
}

/// Two tasks share an id.
pub open spec fn task_ids_repeat(tasks: Seq<Task>) -> bool {
    exists|a: int, b: int| 0 <= a < b < tasks.len() && #[trigger] tasks[a].id@ == #[trigger] tasks[b].id@
}

/// Two resources share an id.
pub open spec fn resource_ids_repeat(res: Seq<Resource>) -> bool {
    exists|a: int, b: int| 0 <= a < b < res.len() && #[trigger] res[a].id@ == #[trigger] res[b].id@
}

/// No resource has the id.
pub open spec fn unknown_resource(res: Seq<Resource>, id: Seq<char>) -> bool {
    forall|r: int| 0 <= r < res.len() ==> #[trigger] res[r].id@ != id
}

/// Some candidate of some activity names no resource.
pub open spec fn dangling_reference(tasks: Seq<Task>, res: Seq<Resource>) -> bool {
    exists|t: int, j: int, c: int|
        0 <= t < tasks.len() && 0 <= j < tasks[t].activities@.len()
            && 0 <= c < tasks[t].activities@[j].candidates().len()
            && unknown_resource(res, #[trigger] tasks[t].activities@[j].candidates()[c]@)
}

/// The text made of the two parts, one after the other.
fn joined(prefix: &str, id: &str) -> (r: String)
    ensures
        r@ == prefix@ + id@,
{
    let mut r = prefix.to_owned();
    r.append(id);
    r
}

impl ValidationResult {
    /// A result without errors.
    pub fn ok() -> (r: Self)
        ensures
            r.is_valid,
            r.errors@.len() == 0,
            r.warnings@.len() == 0,
    {
        ValidationResult { is_valid: true, errors: Vec::new(), warnings: Vec::new() }
    }

    /// Adds an error and marks the result invalid.
    pub fn with_error(self, code: &str, message: &str) -> (r: Self)
        ensures
            !r.is_valid,
            r.errors@.len() == self.errors@.len() + 1,
            r.errors@.drop_last() == self.errors@,
            r.errors@.last().code@ == code@,
            r.errors@.last().message@ == message@,
            r.errors@.last().entity_id.is_none(),
            r.warnings == self.warnings,
    {
        let mut s = self;
        s.is_valid = false;
        s.errors.push(ValidationError { code: code.to_owned(), message: message.to_owned(), entity_id: None });
        proof {
            assert(s.errors@.drop_last() =~= self.errors@);
        }
        s
    }
}

fn seen_task_id(tasks: &[Task], b: usize) -> (r: bool)
    requires
        b < tasks@.len(),
    ensures
        r == exists|a: int| 0 <= a < b && #[trigger] tasks@[a].id@ == tasks@[b as int].id@,
{
    let mut a: usize = 0;
    while a < b
        invariant
            a <= b,
            b < tasks@.len(),
            forall|k: int| 0 <= k < a ==> #[trigger] tasks@[k].id@ != tasks@[b as int].id@,
        decreases b - a,
    {
        if tasks[a].id == tasks[b].id {
            return true;
        }
        a += 1;
    }
    false
}

fn seen_resource_id(res: &[Resource], b: usize) -> (r: bool)
    requires
        b < res@.len(),
    ensures
        r == exists|a: int| 0 <= a < b && #[trigger] res@[a].id@ == res@[b as int].id@,
{
    let mut a: usize = 0;
    while a < b
        invariant
            a <= b,
            b < res@.len(),
            forall|k: int| 0 <= k < a ==> #[trigger] res@[k].id@ != res@[b as int].id@,
        decreases b - a,
    {
        if res[a].id == res[b].id {
            return true;
        }
        a += 1;
    }
    false
}

fn knows_resource(res: &[Resource], id: &String) -> (r: bool)
    ensures
        r == !unknown_resource(res@, id@),
{
    let mut a: usize = 0;
    while a < res.len()
        invariant
            a <= res@.len(),
            forall|k: int| 0 <= k < a ==> #[trigger] res@[k].id@ != id@,
        decreases res@.len() - a,
    {
        if res[a].id == *id {
            return true;
        }
        a += 1;
    }
    false
}

/// Checks ids and references: an error `DUPLICATE_TASK` for each task whose
/// id an earlier task has, `DUPLICATE_RESOURCE` likewise for resources, and
/// `INVALID_RESOURCE_REF` for each candidate that names no resource.
pub fn validate_input(tasks: &[Task], resources: &[Resource]) -> (r: ValidationResult)
    ensures
        r.is_valid == (r.errors@.len() == 0),
        has_code(r.errors@, DUPLICATE_TASK@) == task_ids_repeat(tasks@),
        has_code(r.errors@, DUPLICATE_RESOURCE@) == resource_ids_repeat(resources@),
        has_code(r.errors@, INVALID_RESOURCE_REF@) == dangling_reference(tasks@, resources@),
        r.is_valid == (!task_ids_repeat(tasks@) && !resource_ids_repeat(resources@)
            && !dangling_reference(tasks@, resources@)),
{
    proof {
        reveal_strlit("DUPLICATE_TASK");
        reveal_strlit("DUPLICATE_RESOURCE");
        reveal_strlit("INVALID_RESOURCE_REF");
        assert(DUPLICATE_TASK@.len() == 14);
        assert(DUPLICATE_RESOURCE@.len() == 18);
        assert(INVALID_RESOURCE_REF@.len() == 20);
    }
    let mut result = ValidationResult::ok();
    let mut b: usize = 0;
    while b < tasks.len()
        invariant
            b <= tasks@.len(),
            result.is_valid == (result.errors@.len() == 0),
            forall|i: int| 0 <= i < result.errors@.len() ==> #[trigger] result.errors@[i].code@ == DUPLICATE_TASK@,
            has_code(result.errors@, DUPLICATE_TASK@)
                == exists|x: int, y: int| 0 <= x < y < b && #[trigger] tasks@[x].id@ == #[trigger] tasks@[y].id@,
        decreases tasks@.len() - b,
    {
        let ghost before = result.errors@;
        if seen_task_id(tasks, b) {
            let msg = joined("Duplicate task ID: ", tasks[b].id.as_str());
            result = result.with_error(DUPLICATE_TASK, msg.as_str());
            proof {
                assert(result.errors@[before.len() as int].code@ == DUPLICATE_TASK@);
                assert forall|i: int| 0 <= i < result.errors@.len() implies #[trigger] result.errors@[i].code@ == DUPLICATE_TASK@ by {
                    if i < before.len() {
                        assert(result.errors@[i] == before[i]);
                    }
                }
                let a = choose|a: int| 0 <= a < b && #[trigger] tasks@[a].id@ == tasks@[b as int].id@;
                assert(tasks@[a].id@ == tasks@[b as int].id@);
            }
        } else {
            proof {
                assert forall|x: int, y: int| 0 <= x < y < b + 1 && #[trigger] tasks@[x].id@ == #[trigger] tasks@[y].id@
                    implies y < b by {
                    if y == b {
                        assert(tasks@[x].id@ == tasks@[b as int].id@);
                    }
                }
            }
        }
        b += 1;
    }
    let ghost n1 = result.errors@.len();
    proof {
        assert(result.errors@.subrange(0, n1 as int) =~= result.errors@);
    }
    let mut b: usize = 0;
    while b < resources.len()
        invariant
            b <= resources@.len(),
            n1 <= result.errors@.len(),
            result.is_valid == (result.errors@.len() == 0),
            forall|i: int| 0 <= i < n1 ==> #[trigger] result.errors@[i].code@ == DUPLICATE_TASK@,
            forall|i: int| n1 <= i < result.errors@.len() ==> #[trigger] result.errors@[i].code@ == DUPLICATE_RESOURCE@,
            has_code(result.errors@.subrange(0, n1 as int), DUPLICATE_TASK@) == task_ids_repeat(tasks@),
            has_code(result.errors@, DUPLICATE_RESOURCE@)
                == exists|x: int, y: int| 0 <= x < y < b && #[trigger] resources@[x].id@ == #[trigger] resources@[y].id@,
        decreases resources@.len() - b,
    {
        let ghost before = result.errors@;
        if seen_resource_id(resources, b) {
            let msg = joined("Duplicate resource ID: ", resources[b].id.as_str());
            result = result.with_error(DUPLICATE_RESOURCE, msg.as_str());
            proof {
                assert(result.errors@[before.len() as int].code@ == DUPLICATE_RESOURCE@);
                assert(result.errors@.subrange(0, n1 as int) =~= before.subrange(0, n1 as int));
                assert forall|i: int| 0 <= i < before.len() implies result.errors@[i] == before[i] by {
                    assert(result.errors@.drop_last()[i] == result.errors@[i]);
                }

                assert forall|i: int| 0 <= i < n1 implies #[trigger] result.errors@[i].code@ == DUPLICATE_TASK@ by {
                    assert(result.errors@[i] == before[i]);
                }
                assert forall|i: int| n1 <= i < result.errors@.len() implies #[trigger] result.errors@[i].code@ == DUPLICATE_RESOURCE@ by {
                    if i < before.len() {
                        assert(result.errors@[i] == before[i]);
                    }
                }
                let a = choose|a: int| 0 <= a < b && #[trigger] resources@[a].id@ == resources@[b as int].id@;
                assert(resources@[a].id@ == resources@[b as int].id@);
            }
        } else {
            proof {
                assert forall|x: int, y: int| 0 <= x < y < b + 1 && #[trigger] resources@[x].id@ == #[trigger] resources@[y].id@
                    implies y < b by {
                    if y == b {
                        assert(resources@[x].id@ == resources@[b as int].id@);
                    }
                }
            }
        }
        b += 1;
    }
    let ghost n2 = result.errors@.len();
    proof {
        assert(result.errors@.subrange(0, n2 as int) =~= result.errors@);
    }
    let mut t: usize = 0;
    while t < tasks.len()
        invariant
            t <= tasks@.len(),
            n1 <= n2 <= result.errors@.len(),
            result.is_valid == (result.errors@.len() == 0),
            forall|i: int| 0 <= i < n1 ==> #[trigger] result.errors@[i].code@ == DUPLICATE_TASK@,
            forall|i: int| n1 <= i < n2 ==> #[trigger] result.errors@[i].code@ == DUPLICATE_RESOURCE@,
            forall|i: int| n2 <= i < result.errors@.len() ==> #[trigger] result.errors@[i].code@ == INVALID_RESOURCE_REF@,
            has_code(result.errors@.subrange(0, n1 as int), DUPLICATE_TASK@) == task_ids_repeat(tasks@),
            has_code(result.errors@.subrange(0, n2 as int), DUPLICATE_RESOURCE@) == resource_ids_repeat(resources@),
            has_code(result.errors@, INVALID_RESOURCE_REF@) == exists|x: int, j: int, c: int|
                0 <= x < t && 0 <= j < tasks@[x].activities@.len()
                    && 0 <= c < tasks@[x].activities@[j].candidates().len()
                    && unknown_resource(resources@, #[trigger] tasks@[x].activities@[j].candidates()[c]@),
        decreases tasks@.len() - t,
    {
        let task = &tasks[t];
        let mut j: usize = 0;
        while j < task.activities.len()
            invariant
                t < tasks@.len(),
                *task == tasks@[t as int],
                j <= task.activities@.len(),
                n1 <= n2 <= result.errors@.len(),
                result.is_valid == (result.errors@.len() == 0),
                forall|i: int| 0 <= i < n1 ==> #[trigger] result.errors@[i].code@ == DUPLICATE_TASK@,
                forall|i: int| n1 <= i < n2 ==> #[trigger] result.errors@[i].code@ == DUPLICATE_RESOURCE@,
                forall|i: int| n2 <= i < result.errors@.len() ==> #[trigger] result.errors@[i].code@ == INVALID_RESOURCE_REF@,
                has_code(result.errors@.subrange(0, n1 as int), DUPLICATE_TASK@) == task_ids_repeat(tasks@),
                has_code(result.errors@.subrange(0, n2 as int), DUPLICATE_RESOURCE@) == resource_ids_repeat(resources@),
                has_code(result.errors@, INVALID_RESOURCE_REF@) == exists|x: int, y: int, c: int|
                    ((0 <= x < t && 0 <= y < tasks@[x].activities@.len()) || (x == t && 0 <= y < j))
                        && 0 <= c < tasks@[x].activities@[y].candidates().len()
                        && unknown_resource(resources@, #[trigger] tasks@[x].activities@[y].candidates()[c]@),
            decreases task.activities@.len() - j,
        {
            let activity = &task.activities[j];
            let candidates = activity.candidate_resources();
            let mut c: usize = 0;
            while c < candidates.len()
                invariant
                    t < tasks@.len(),
                    *task == tasks@[t as int],
                    j < task.activities@.len(),
                    *activity == task.activities@[j as int],
                    candidates@ == activity.candidates(),
                    c <= candidates@.len(),
                    n1 <= n2 <= result.errors@.len(),
                    result.is_valid == (result.errors@.len() == 0),
                    forall|i: int| 0 <= i < n1 ==> #[trigger] result.errors@[i].code@ == DUPLICATE_TASK@,
                    forall|i: int| n1 <= i < n2 ==> #[trigger] result.errors@[i].code@ == DUPLICATE_RESOURCE@,
                    forall|i: int| n2 <= i < result.errors@.len() ==> #[trigger] result.errors@[i].code@ == INVALID_RESOURCE_REF@,
                    has_code(result.errors@.subrange(0, n1 as int), DUPLICATE_TASK@) == task_ids_repeat(tasks@),
                    has_code(result.errors@.subrange(0, n2 as int), DUPLICATE_RESOURCE@) == resource_ids_repeat(resources@),
                    has_code(result.errors@, INVALID_RESOURCE_REF@) == exists|x: int, y: int, d: int|
                        ((0 <= x < t && 0 <= y < tasks@[x].activities@.len()) || (x == t && 0 <= y < j)
                            || (x == t && y == j && d < c))
                            && 0 <= d < tasks@[x].activities@[y].candidates().len()
                            && unknown_resource(resources@, #[trigger] tasks@[x].activities@[y].candidates()[d]@),
                decreases candidates@.len() - c,
            {
                if !knows_resource(resources, &candidates[c]) {
                    let ghost before = result.errors@;
                    let head = joined("Activity ", activity.id.as_str());
                    let head = joined(head.as_str(), " references unknown resource ");
                    let msg = joined(head.as_str(), candidates[c].as_str());
                    result = result.with_error(INVALID_RESOURCE_REF, msg.as_str());
                    proof {
                        assert(result.errors@[before.len() as int].code@ == INVALID_RESOURCE_REF@);
                        assert forall|i: int| 0 <= i < before.len() implies result.errors@[i] == before[i] by {
                    assert(result.errors@.drop_last()[i] == result.errors@[i]);
                }
                        assert(result.errors@.subrange(0, n1 as int) =~= before.subrange(0, n1 as int));
                        assert(result.errors@.subrange(0, n2 as int) =~= before.subrange(0, n2 as int));
                        assert(unknown_resource(resources@, tasks@[t as int].activities@[j as int].candidates()[c as int]@));
                        assert forall|i: int| 0 <= i < n1 implies #[trigger] result.errors@[i].code@ == DUPLICATE_TASK@ by {
                            assert(result.errors@[i] == before[i]);
                        }
                        assert forall|i: int| n1 <= i < n2 implies #[trigger] result.errors@[i].code@ == DUPLICATE_RESOURCE@ by {
                            assert(result.errors@[i] == before[i]);
                        }
                        assert forall|i: int| n2 <= i < result.errors@.len() implies #[trigger] result.errors@[i].code@ == INVALID_RESOURCE_REF@ by {
                            if i < before.len() {
                                assert(result.errors@[i] == before[i]);
                            }
                        }
                    }
                } else {
                    proof {
                        assert forall|x: int, y: int, d: int|
                            ((0 <= x < t && 0 <= y < tasks@[x].activities@.len()) || (x == t && 0 <= y < j)
                                || (x == t && y == j && d < c + 1))
                                && 0 <= d < tasks@[x].activities@[y].candidates().len()
                                && unknown_resource(resources@, #[trigger] tasks@[x].activities@[y].candidates()[d]@)
                            implies ((0 <= x < t && 0 <= y < tasks@[x].activities@.len()) || (x == t && 0 <= y < j)
                                || (x == t && y == j && d < c)) by {
                            if x == t && y == j && d == c {
                                assert(!unknown_resource(resources@, candidates@[c as int]@));
                            }
                        }
                    }
                }
                c += 1;
            }
            j += 1;
        }
        t += 1;
    }
    proof {
        let e = result.errors@;
        assert(e.subrange(0, e.len() as int) =~= e);
        if has_code(e, DUPLICATE_TASK@) {
            let i = choose|i: int| 0 <= i < e.len() && #[trigger] e[i].code@ == DUPLICATE_TASK@;
            assert(i < n1);
            assert(e.subrange(0, n1 as int)[i] == e[i]);
        }
        if has_code(e.subrange(0, n1 as int), DUPLICATE_TASK@) {
            let i = choose|i: int| 0 <= i < n1 && #[trigger] e.subrange(0, n1 as int)[i].code@ == DUPLICATE_TASK@;
            assert(e[i] == e.subrange(0, n1 as int)[i]);
        }
        if has_code(e, DUPLICATE_RESOURCE@) {
            let i = choose|i: int| 0 <= i < e.len() && #[trigger] e[i].code@ == DUPLICATE_RESOURCE@;
            assert(n1 <= i < n2);
            assert(e.subrange(0, n2 as int)[i] == e[i]);
        }
        if has_code(e.subrange(0, n2 as int), DUPLICATE_RESOURCE@) {
            let i = choose|i: int| 0 <= i < n2 && #[trigger] e.subrange(0, n2 as int)[i].code@ == DUPLICATE_RESOURCE@;
            assert(e[i] == e.subrange(0, n2 as int)[i]);
        }
        if e.len() > 0 {
            let i = 0int;
            if i < n1 {
                assert(e[i].code@ == DUPLICATE_TASK@);
                assert(has_code(e, DUPLICATE_TASK@));
            } else if i < n2 {
                assert(e[i].code@ == DUPLICATE_RESOURCE@);
                assert(has_code(e, DUPLICATE_RESOURCE@));
            } else {
                assert(e[i].code@ == INVALID_RESOURCE_REF@);
                assert(has_code(e, INVALID_RESOURCE_REF@));
            }
        }
    }
    result
}

} // verus!

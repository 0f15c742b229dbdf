//! Activities: the steps of a task, with their durations and the resources
//! that may serve them.
use vstd::prelude::*;

verus! {

/// Setup, processing and teardown time of an activity, in milliseconds.
#[derive(Debug, Clone, Copy)]
pub struct ActivityDuration {
    pub setup_ms: i64,
    pub process_ms: i64,
    pub teardown_ms: i64,
}

impl ActivityDuration {
    /// The sum of the three parts.
    pub open spec fn total(&self) -> int {
        self.setup_ms + self.process_ms + self.teardown_ms
    }

    pub fn new(setup_ms: i64, process_ms: i64, teardown_ms: i64) -> (r: Self)
        ensures
            r.setup_ms == setup_ms,
            r.process_ms == process_ms,
            r.teardown_ms == teardown_ms,
    {
        ActivityDuration { setup_ms, process_ms, teardown_ms }
    }

    /// A duration made of processing time only.
    pub fn fixed(process_ms: i64) -> (r: Self)
        ensures
            r.setup_ms == 0,
            r.process_ms == process_ms,
            r.teardown_ms == 0,
    {
        ActivityDuration { setup_ms: 0, process_ms, teardown_ms: 0 }
    }

    pub fn total_ms(&self) -> (r: i64)
        requires
            i64::MIN <= self.total() <= i64::MAX,
        ensures
            r == self.total(),
    {
        (self.setup_ms as i128 + self.process_ms as i128 + self.teardown_ms as i128) as i64
    }
}

impl Default for ActivityDuration {
    fn default() -> (r: Self)
        ensures
            r.setup_ms == 0 && r.process_ms == 0 && r.teardown_ms == 0,
    {
        ActivityDuration::fixed(0)
    }
}

/// What an activity needs of one kind of resource.
#[derive(Debug, Clone)]
pub struct ResourceRequirement {
    pub resource_type: String,
    pub quantity: i32,
    /// The resources that may serve, in order of preference.
    pub candidates: Vec<String>,
    pub required_skills: Vec<String>,
}

impl ResourceRequirement {
    /// A requirement for one unit of the given type, with no candidates yet.
    pub fn new(resource_type: &str) -> (r: Self)
        ensures
            r.resource_type@ == resource_type@,
            r.quantity == 1,
            r.candidates@.len() == 0,
            r.required_skills@.len() == 0,
    {
        ResourceRequirement {
            resource_type: resource_type.to_owned(),
            quantity: 1,
            candidates: Vec::new(),
            required_skills: Vec::new(),
        }
    }

    pub fn with_quantity(self, quantity: i32) -> (r: Self)
        ensures
            r == (ResourceRequirement { quantity, ..self }),
    {
        ResourceRequirement { quantity, ..self }
    }

    /// Appends one candidate resource.
    pub fn with_candidate(self, resource_id: &str) -> (r: Self)
        ensures
            r.resource_type == self.resource_type,
            r.quantity == self.quantity,
            r.required_skills == self.required_skills,
            r.candidates@.len() == self.candidates@.len() + 1,
            r.candidates@.drop_last() == self.candidates@,
            r.candidates@.last()@ == resource_id@,
    {
        let mut s = self;
        s.candidates.push(resource_id.to_owned());
        s
    }

    /// Replaces the candidate list.
    pub fn with_candidates(self, candidates: Vec<String>) -> (r: Self)
        ensures
            r == (ResourceRequirement { candidates, ..self }),
    {
        ResourceRequirement { candidates, ..self }
    }

    /// Appends one required skill.
    pub fn with_skill(self, skill: &str) -> (r: Self)
        ensures
            r.resource_type == self.resource_type,
            r.quantity == self.quantity,
            r.candidates == self.candidates,
            r.required_skills@.len() == self.required_skills@.len() + 1,
            r.required_skills@.drop_last() == self.required_skills@,
            r.required_skills@.last()@ == skill@,
    {
        let mut s = self;
        s.required_skills.push(skill.to_owned());
        s
    }
}

/// The candidates of a list of requirements, one requirement after another.
pub open spec fn flat_candidates(reqs: Seq<ResourceRequirement>) -> Seq<String>
    decreases reqs.len(),
{
    if reqs.len() == 0 {
        Seq::empty()
    } else {
        flat_candidates(reqs.drop_last()) + reqs.last().candidates@
    }
}

/// A step of a task.
#[derive(Debug, Clone)]
pub struct Activity {
    pub id: String,
    pub task_id: String,
    /// 1-based position of the activity within its task.
    pub sequence: i32,
    pub duration: ActivityDuration,
    pub resource_requirements: Vec<ResourceRequirement>,
    /// Activities of the same task that must come first.
    pub predecessors: Vec<String>,
    pub splittable: bool,
    pub min_split_ms: i64,
    pub attributes: std::collections::HashMap<String, String>,
}

impl Activity {
    /// All candidate resources of the activity, requirement by requirement.
    pub open spec fn candidates(&self) -> Seq<String> {
        flat_candidates(self.resource_requirements@)
    }

    pub fn new(id: &str, task_id: &str, sequence: i32) -> (r: Self)
        ensures
            r.id@ == id@,
            r.task_id@ == task_id@,
            r.sequence == sequence,
            r.duration.setup_ms == 0 && r.duration.process_ms == 0 && r.duration.teardown_ms == 0,
            r.resource_requirements@.len() == 0,
            r.predecessors@.len() == 0,
            !r.splittable,
            r.min_split_ms == 0,
            r.attributes@ == Map::<String, String>::empty(),
    {
        Activity {
            id: id.to_owned(),
            task_id: task_id.to_owned(),
            sequence,
            duration: ActivityDuration::fixed(0),
            resource_requirements: Vec::new(),
            predecessors: Vec::new(),
            splittable: false,
            min_split_ms: 0,
            attributes: std::collections::HashMap::new(),
        }
    }

    pub fn with_duration(self, duration: ActivityDuration) -> (r: Self)
        ensures
            r == (Activity { duration, ..self }),
    {
        Activity { duration, ..self }
    }

    pub fn with_time(self, setup_ms: i64, process_ms: i64, teardown_ms: i64) -> (r: Self)
        ensures
            r == (Activity { duration: ActivityDuration { setup_ms, process_ms, teardown_ms }, ..self }),
    {
        Activity { duration: ActivityDuration::new(setup_ms, process_ms, teardown_ms), ..self }
    }

    /// Appends a requirement.
    pub fn with_requirement(self, requirement: ResourceRequirement) -> (r: Self)
        ensures
            r.resource_requirements@ == self.resource_requirements@.push(requirement),
            r.id == self.id && r.task_id == self.task_id && r.sequence == self.sequence,
            r.duration == self.duration,
            r.predecessors == self.predecessors,
            r.splittable == self.splittable && r.min_split_ms == self.min_split_ms,
            r.attributes == self.attributes,
    {
        let mut s = self;
        s.resource_requirements.push(requirement);
        s
    }

    /// Appends a requirement of the given type with the given candidates.
    pub fn with_resources(self, resource_type: &str, candidates: Vec<String>) -> (r: Self)
        ensures
            r.resource_requirements@.len() == self.resource_requirements@.len() + 1,
            r.resource_requirements@.drop_last() == self.resource_requirements@,
            r.resource_requirements@.last().resource_type@ == resource_type@,
            r.resource_requirements@.last().candidates == candidates,
            r.resource_requirements@.last().quantity == 1,
            r.resource_requirements@.last().required_skills@.len() == 0,
            r.id == self.id && r.task_id == self.task_id && r.sequence == self.sequence,
            r.duration == self.duration,
            r.predecessors == self.predecessors,
            r.splittable == self.splittable && r.min_split_ms == self.min_split_ms,
            r.attributes == self.attributes,
    {
        let req = ResourceRequirement::new(resource_type).with_candidates(candidates);
        let mut s = self;
        s.resource_requirements.push(req);
        proof {
            assert(s.resource_requirements@.drop_last() =~= self.resource_requirements@);
        }
        s
    }

    /// Appends a predecessor activity id.
    pub fn with_predecessor(self, activity_id: &str) -> (r: Self)
        ensures
            r.predecessors@.len() == self.predecessors@.len() + 1,
            r.predecessors@.drop_last() == self.predecessors@,
            r.predecessors@.last()@ == activity_id@,
            r.id == self.id && r.task_id == self.task_id && r.sequence == self.sequence,
            r.duration == self.duration,
            r.resource_requirements == self.resource_requirements,
            r.splittable == self.splittable && r.min_split_ms == self.min_split_ms,
            r.attributes == self.attributes,
    {
        let mut s = self;
        s.predecessors.push(activity_id.to_owned());
        proof {
            assert(s.predecessors@.drop_last() =~= self.predecessors@);
        }
        s
    }

    /// Marks the activity splittable into pieces of at least `min_split_ms`.
    pub fn with_splitting(self, min_split_ms: i64) -> (r: Self)
        ensures
            r == (Activity { splittable: true, min_split_ms, ..self }),
    {
        Activity { splittable: true, min_split_ms, ..self }
    }

    /// Sets a free-form attribute.
    pub fn with_attribute(self, key: &str, value: &str) -> (r: Self)
        ensures
            r.id == self.id && r.task_id == self.task_id && r.sequence == self.sequence,
            r.duration == self.duration,
            r.resource_requirements == self.resource_requirements,
            r.predecessors == self.predecessors,
            r.splittable == self.splittable && r.min_split_ms == self.min_split_ms,
    {
        let mut s = self;
        s.attributes.insert(key.to_owned(), value.to_owned());
        s
    }

    /// The candidates of all requirements, in order.
    pub fn candidate_resources(&self) -> (r: Vec<String>)
        ensures
            r@ == self.candidates(),
    {
        let mut r: Vec<String> = Vec::new();
        let mut i: usize = 0;
        while i < self.resource_requirements.len()
            invariant
                i <= self.resource_requirements@.len(),
                r@ == flat_candidates(self.resource_requirements@.subrange(0, i as int)),
            decreases self.resource_requirements@.len() - i,
        {
            let req = &self.resource_requirements[i];
            let ghost before = r@;
            let mut j: usize = 0;
            while j < req.candidates.len()
                invariant
                    j <= req.candidates@.len(),
                    r@ == before + req.candidates@.subrange(0, j as int),
                decreases req.candidates@.len() - j,
            {
                r.push(req.candidates[j].clone());
                proof {
                    assert(req.candidates@.subrange(0, j + 1) =~= req.candidates@.subrange(0, j as int).push(req.candidates@[j as int]));
                }
                j += 1;
            }
            proof {
                let s = self.resource_requirements@.subrange(0, i + 1);
                assert(s.drop_last() =~= self.resource_requirements@.subrange(0, i as int));
                assert(req.candidates@.subrange(0, j as int) =~= req.candidates@);
            }
            i += 1;
        }
        proof {
            assert(self.resource_requirements@.subrange(0, i as int) =~= self.resource_requirements@);
        }
        r
    }
}

} // verus!

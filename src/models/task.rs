//! Tasks: units of schedulable work made of ordered activities.
use vstd::prelude::*;
use crate::models::activity::Activity;

verus! {

/// Sum of the processing times of a list of activities.
pub open spec fn sum_process(acts: Seq<Activity>) -> int
    decreases acts.len(),
{
    if acts.len() == 0 {
        0
    } else {
        sum_process(acts.drop_last()) + acts.last().duration.process_ms
    }
}

/// Sum of the total durations (setup, processing, teardown) of a list of activities.
pub open spec fn sum_total(acts: Seq<Activity>) -> int
    decreases acts.len(),
{
    if acts.len() == 0 {
        0
    } else {
        sum_total(acts.drop_last()) + acts.last().duration.total()
    }
}

/// A unit of work. Deadline and release time are epoch milliseconds.
#[derive(Debug, Clone)]
pub struct Task {
    pub id: String,
    pub name: String,
    pub category: String,
    /// Higher is more important.
    pub priority: i32,
    pub deadline: Option<i64>,
    /// Earliest admissible start.
    pub release_time: Option<i64>,
    pub activities: Vec<Activity>,
    pub attributes: std::collections::HashMap<String, String>,
}

impl Task {
    /// A task named after its id, of priority 1, with no activities.
    pub fn new(id: &str) -> (r: Self)
        ensures
            r.id@ == id@,
            r.name@ == id@,
            r.category@.len() == 0,
            r.priority == 1,
            r.deadline.is_none(),
            r.release_time.is_none(),
            r.activities@.len() == 0,
            r.attributes@ == Map::<String, String>::empty(),
    {
        Task {
            id: id.to_owned(),
            name: id.to_owned(),
            category: String::new(),
            priority: 1,
            deadline: None,
            release_time: None,
            activities: Vec::new(),
            attributes: std::collections::HashMap::new(),
        }
    }

    pub fn with_name(self, name: &str) -> (r: Self)
        ensures
            r.name@ == name@,
            r.id == self.id && r.category == self.category && r.priority == self.priority,
            r.deadline == self.deadline && r.release_time == self.release_time,
            r.activities == self.activities,
    {
        Task { name: name.to_owned(), ..self }
    }

    pub fn with_category(self, category: &str) -> (r: Self)
        ensures
            r.category@ == category@,
            r.id == self.id && r.name == self.name && r.priority == self.priority,
            r.deadline == self.deadline && r.release_time == self.release_time,
            r.activities == self.activities,
    {
        Task { category: category.to_owned(), ..self }
    }

    pub fn with_priority(self, priority: i32) -> (r: Self)
        ensures
            r == (Task { priority, ..self }),
    {
        Task { priority, ..self }
    }

    /// Sets the deadline, in epoch milliseconds.
    pub fn with_deadline(self, deadline_ms: i64) -> (r: Self)
        ensures
            r == (Task { deadline: Some(deadline_ms), ..self }),
    {
        Task { deadline: Some(deadline_ms), ..self }
    }

    /// Sets the release time, in epoch milliseconds.
    pub fn with_release_time(self, release_ms: i64) -> (r: Self)
        ensures
            r == (Task { release_time: Some(release_ms), ..self }),
    {
        Task { release_time: Some(release_ms), ..self }
    }

    /// Appends an activity.
    pub fn with_activity(self, activity: Activity) -> (r: Self)
        ensures
            r.activities@ == self.activities@.push(activity),
            r.id == self.id && r.name == self.name && r.category == self.category,
            r.priority == self.priority,
            r.deadline == self.deadline && r.release_time == self.release_time,
    {
        let mut s = self;
        s.activities.push(activity);
        s
    }

    pub fn with_attribute(self, key: &str, value: &str) -> (r: Self)
        ensures
            r.id == self.id && r.name == self.name && r.category == self.category,
            r.priority == self.priority,
            r.deadline == self.deadline && r.release_time == self.release_time,
            r.activities == self.activities,
    {
        let mut s = self;
        s.attributes.insert(key.to_owned(), value.to_owned());
        s
    }

    /// Sum of the processing times of the activities.
    pub fn total_duration_ms(&self) -> (r: i64)
        requires
            forall|k: int| 0 <= k <= self.activities@.len()
                ==> i64::MIN <= #[trigger] sum_process(self.activities@.subrange(0, k)) <= i64::MAX,
        ensures
            r == sum_process(self.activities@),
    {
        let mut sum: i64 = 0;
        let mut i: usize = 0;
        while i < self.activities.len()
            invariant
                i <= self.activities@.len(),
                sum == sum_process(self.activities@.subrange(0, i as int)),
                forall|k: int| 0 <= k <= self.activities@.len()
                    ==> i64::MIN <= #[trigger] sum_process(self.activities@.subrange(0, k)) <= i64::MAX,
            decreases self.activities@.len() - i,
        {
            proof {
                assert(self.activities@.subrange(0, i + 1).drop_last() =~= self.activities@.subrange(0, i as int));
                assert(sum_process(self.activities@.subrange(0, i + 1)) <= i64::MAX);
            }
            sum = sum + self.activities[i].duration.process_ms;
            i += 1;
        }
        proof {
            assert(self.activities@.subrange(0, i as int) =~= self.activities@);
        }
        sum
    }

    pub fn has_activities(&self) -> (r: bool)
        ensures
            r == (self.activities@.len() > 0),
    {
        self.activities.len() > 0
    }
}

impl Default for Task {
    fn default() -> (r: Self)
        ensures
            r.id@ == "default"@,
    {
        Task::new("default")
    }
}

} // verus!

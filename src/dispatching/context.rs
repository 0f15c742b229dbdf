//! Runtime state that dispatching rules may consult.
use vstd::prelude::*;
use crate::text::same_text;

verus! {

/// The value of the latest entry with the key, if any.
pub open spec fn latest_value<V>(e: Seq<(String, V)>, key: Seq<char>) -> Option<V>
    decreases e.len(),
{
    if e.len() == 0 {
        None
    } else if e.last().0@ == key {
        Some(e.last().1)
    } else {
        latest_value(e.drop_last(), key)
    }
}

/// The value of the latest entry with the key.
pub fn lookup<V: Copy>(e: &Vec<(String, V)>, key: &str) -> (r: Option<V>)
    ensures
        r == latest_value(e@, key@),
{
    let mut i: usize = e.len();
    proof {
        assert(e@.subrange(0, i as int) =~= e@);
    }
    while i > 0
        invariant
            i <= e@.len(),
            latest_value(e@, key@) == latest_value(e@.subrange(0, i as int), key@),
        decreases i,
    {
        proof {
            assert(e@.subrange(0, i as int).drop_last() =~= e@.subrange(0, i - 1));
        }
        if same_text(&e[i - 1].0, key) {
            return Some(e[i - 1].1);
        }
        i -= 1;
    }
    None
}

/// What the rules know of the scheduling state. Times are epoch
/// milliseconds; a later entry for a key overrides an earlier one.
#[derive(Debug, Clone)]
pub struct SchedulingContext {
    pub current_time: i64,
    /// Remaining work of a task, in milliseconds.
    pub remaining_work: Vec<(String, i64)>,
    /// Queue length at the resource of a task's next operation.
    pub next_queue_length: Vec<(String, usize)>,
    /// Load of a resource, in parts per million (1_000_000 is fully loaded).
    pub resource_utilization: Vec<(String, i64)>,
    pub arrival_times: Vec<(String, i64)>,
    /// Mean processing time of the waiting tasks, in milliseconds.
    pub average_processing_time: Option<i64>,
    pub attributes: std::collections::HashMap<String, String>,
}

impl SchedulingContext {
    /// A context at the given time with no further knowledge.
    pub fn new(current_time: i64) -> (r: Self)
        ensures
            r.current_time == current_time,
            r.remaining_work@.len() == 0,
            r.next_queue_length@.len() == 0,
            r.resource_utilization@.len() == 0,
            r.arrival_times@.len() == 0,
            r.average_processing_time is None,
    {
        SchedulingContext {
            current_time,
            remaining_work: Vec::new(),
            next_queue_length: Vec::new(),
            resource_utilization: Vec::new(),
            arrival_times: Vec::new(),
            average_processing_time: None,
            attributes: std::collections::HashMap::new(),
        }
    }

    /// A context at time 0.
    pub fn at_epoch() -> (r: Self)
        ensures
            r.current_time == 0,
            r.remaining_work@.len() == 0,
            r.next_queue_length@.len() == 0,
            r.resource_utilization@.len() == 0,
            r.arrival_times@.len() == 0,
            r.average_processing_time is None,
    {
        SchedulingContext::new(0)
    }

    pub fn with_remaining_work(self, task_id: &str, remaining_ms: i64) -> (r: Self)
        ensures
            latest_value(r.remaining_work@, task_id@) == Some(remaining_ms),
            forall|k: Seq<char>| k != task_id@ ==> #[trigger] latest_value(r.remaining_work@, k) == latest_value(self.remaining_work@, k),
            r.current_time == self.current_time,
            r.next_queue_length == self.next_queue_length,
            r.resource_utilization == self.resource_utilization,
            r.arrival_times == self.arrival_times,
    {
        let mut s = self;
        s.remaining_work.push((task_id.to_owned(), remaining_ms));
        proof {
            assert(s.remaining_work@.drop_last() =~= self.remaining_work@);
        }
        s
    }

    pub fn with_arrival_time(self, task_id: &str, time_ms: i64) -> (r: Self)
        ensures
            latest_value(r.arrival_times@, task_id@) == Some(time_ms),
            forall|k: Seq<char>| k != task_id@ ==> #[trigger] latest_value(r.arrival_times@, k) == latest_value(self.arrival_times@, k),
            r.current_time == self.current_time,
            r.remaining_work == self.remaining_work,
            r.next_queue_length == self.next_queue_length,
            r.resource_utilization == self.resource_utilization,
    {
        let mut s = self;
        s.arrival_times.push((task_id.to_owned(), time_ms));
        proof {
            assert(s.arrival_times@.drop_last() =~= self.arrival_times@);
        }
        s
    }

    pub fn with_next_queue(self, task_id: &str, length: usize) -> (r: Self)
        ensures
            latest_value(r.next_queue_length@, task_id@) == Some(length),
            forall|k: Seq<char>| k != task_id@ ==> #[trigger] latest_value(r.next_queue_length@, k) == latest_value(self.next_queue_length@, k),
            r.current_time == self.current_time,
            r.remaining_work == self.remaining_work,
            r.resource_utilization == self.resource_utilization,
            r.arrival_times == self.arrival_times,
    {
        let mut s = self;
        s.next_queue_length.push((task_id.to_owned(), length));
        proof {
            assert(s.next_queue_length@.drop_last() =~= self.next_queue_length@);
        }
        s
    }

    /// Sets a resource's load, in parts per million.
    pub fn with_utilization(self, resource_id: &str, load_ppm: i64) -> (r: Self)
        ensures
            latest_value(r.resource_utilization@, resource_id@) == Some(load_ppm),
            forall|k: Seq<char>| k != resource_id@ ==> #[trigger] latest_value(r.resource_utilization@, k) == latest_value(self.resource_utilization@, k),
            r.current_time == self.current_time,
            r.remaining_work == self.remaining_work,
            r.next_queue_length == self.next_queue_length,
            r.arrival_times == self.arrival_times,
    {
        let mut s = self;
        s.resource_utilization.push((resource_id.to_owned(), load_ppm));
        proof {
            assert(s.resource_utilization@.drop_last() =~= self.resource_utilization@);
        }
        s
    }

    pub fn with_average_processing_time(self, avg_ms: i64) -> (r: Self)
        ensures
            r.average_processing_time == Some(avg_ms),
            r.current_time == self.current_time,
            r.remaining_work == self.remaining_work,
            r.next_queue_length == self.next_queue_length,
            r.resource_utilization == self.resource_utilization,
            r.arrival_times == self.arrival_times,
    {
        SchedulingContext { average_processing_time: Some(avg_ms), ..self }
    }

    /// Remaining work of the task, 0 when unknown.
    pub fn get_remaining_work(&self, task_id: &str) -> (r: i64)
        ensures
            r == match latest_value(self.remaining_work@, task_id@) {
                Some(v) => v,
                None => 0,
            },
    {
        match lookup(&self.remaining_work, task_id) {
            Some(v) => v,
            None => 0,
        }
    }

    pub fn get_arrival_time(&self, task_id: &str) -> (r: Option<i64>)
        ensures
            r == latest_value(self.arrival_times@, task_id@),
    {
        lookup(&self.arrival_times, task_id)
    }
}

impl Default for SchedulingContext {
    fn default() -> (r: Self)
        ensures
            r.current_time == 0,
            r.remaining_work@.len() == 0,
            r.next_queue_length@.len() == 0,
            r.resource_utilization@.len() == 0,
            r.arrival_times@.len() == 0,
    {
        SchedulingContext::at_epoch()
    }
}

} // verus!

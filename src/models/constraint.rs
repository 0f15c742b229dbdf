//! Constraints of a scheduling problem, and the transition matrices that give
//! sequence-dependent setup times.
use vstd::prelude::*;
use crate::text::same_text;

verus! {

/// A rule that a schedule should respect.
#[derive(Debug, Clone)]
pub enum Constraint {
    /// `before` ends at least `min_delay_ms` before `after` starts.
    Precedence { before: String, after: String, min_delay_ms: i64 },
    /// The resource serves at most `max_capacity` activities at once.
    Capacity { resource_id: String, max_capacity: i32 },
    /// The activity lies within `[start_ms, end_ms)`.
    TimeWindow { activity_id: String, start_ms: i64, end_ms: i64 },
    /// The activities do not overlap on the resource.
    NoOverlap { resource_id: String, activity_ids: Vec<String> },
    /// Changing from one category to another costs `cost_ms`.
    TransitionCost { from_category: String, to_category: String, cost_ms: i64 },
    /// The activities start together.
    Synchronize { activity_ids: Vec<String> },
}

impl Constraint {
    pub fn precedence(before: &str, after: &str) -> (r: Self)
        ensures
            r matches Constraint::Precedence { before: b, after: a, min_delay_ms: d }
                && b@ == before@ && a@ == after@ && d == 0,
    {
        Constraint::Precedence { before: before.to_owned(), after: after.to_owned(), min_delay_ms: 0 }
    }

    pub fn precedence_with_delay(before: &str, after: &str, delay_ms: i64) -> (r: Self)
        ensures
            r matches Constraint::Precedence { before: b, after: a, min_delay_ms: d }
                && b@ == before@ && a@ == after@ && d == delay_ms,
    {
        Constraint::Precedence { before: before.to_owned(), after: after.to_owned(), min_delay_ms: delay_ms }
    }

    pub fn capacity(resource_id: &str, max: i32) -> (r: Self)
        ensures
            r matches Constraint::Capacity { resource_id: id, max_capacity: m } && id@ == resource_id@ && m == max,
    {
        Constraint::Capacity { resource_id: resource_id.to_owned(), max_capacity: max }
    }

    pub fn time_window(activity_id: &str, start_ms: i64, end_ms: i64) -> (r: Self)
        ensures
            r matches Constraint::TimeWindow { activity_id: id, start_ms: s, end_ms: e }
                && id@ == activity_id@ && s == start_ms && e == end_ms,
    {
        Constraint::TimeWindow { activity_id: activity_id.to_owned(), start_ms, end_ms }
    }

    pub fn no_overlap(resource_id: &str, activity_ids: Vec<String>) -> (r: Self)
        ensures
            r matches Constraint::NoOverlap { resource_id: id, activity_ids: ids }
                && id@ == resource_id@ && ids == activity_ids,
    {
        Constraint::NoOverlap { resource_id: resource_id.to_owned(), activity_ids }
    }

    pub fn transition_cost(from: &str, to: &str, cost_ms: i64) -> (r: Self)
        ensures
            r matches Constraint::TransitionCost { from_category: f, to_category: t, cost_ms: c }
                && f@ == from@ && t@ == to@ && c == cost_ms,
    {
        Constraint::TransitionCost { from_category: from.to_owned(), to_category: to.to_owned(), cost_ms }
    }
}

/// One entry of a transition matrix.
#[derive(Debug, Clone)]
pub struct Transition {
    pub from: String,
    pub to: String,
    pub time_ms: i64,
}

/// The time of the latest entry for `(from, to)`, if any.
pub open spec fn latest_transition(e: Seq<Transition>, from: Seq<char>, to: Seq<char>) -> Option<i64>
    decreases e.len(),
{
    if e.len() == 0 {
        None
    } else if e.last().from@ == from && e.last().to@ == to {
        Some(e.last().time_ms)
    } else {
        latest_transition(e.drop_last(), from, to)
    }
}

/// Setup times of one resource, by pair of task categories.
#[derive(Debug, Clone)]
pub struct TransitionMatrix {
    pub name: String,
    pub resource_id: String,
    /// Entries in the order they were set; a later entry overrides an earlier one.
    pub transitions: Vec<Transition>,
    /// Time of a pair without an entry.
    pub default_ms: i64,
}

impl TransitionMatrix {
    /// The setup time from category `from` to category `to`.
    pub open spec fn time(&self, from: Seq<char>, to: Seq<char>) -> i64 {
        match latest_transition(self.transitions@, from, to) {
            Some(t) => t,
            None => self.default_ms,
        }
    }

    pub fn new(name: &str, resource_id: &str) -> (r: Self)
        ensures
            r.name@ == name@,
            r.resource_id@ == resource_id@,
            r.transitions@.len() == 0,
            r.default_ms == 0,
    {
        TransitionMatrix {
            name: name.to_owned(),
            resource_id: resource_id.to_owned(),
            transitions: Vec::new(),
            default_ms: 0,
        }
    }

    /// Sets the time of the pair `(from, to)`.
    pub fn set_transition(&mut self, from: &str, to: &str, time_ms: i64)
        ensures
            final(self).name == old(self).name,
            final(self).resource_id == old(self).resource_id,
            final(self).default_ms == old(self).default_ms,
            final(self).time(from@, to@) == time_ms,
            forall|f: Seq<char>, t: Seq<char>|
                !(f == from@ && t == to@) ==> #[trigger] final(self).time(f, t) == old(self).time(f, t),
    {
        self.transitions.push(Transition { from: from.to_owned(), to: to.to_owned(), time_ms });
        proof {
            assert(self.transitions@.drop_last() =~= old(self).transitions@);
        }
    }

    /// The time of the pair `(from, to)`, or the default.
    pub fn get_transition(&self, from: &str, to: &str) -> (r: i64)
        ensures
            r == self.time(from@, to@),
    {
        let f = from.to_owned();
        let t = to.to_owned();
        let mut i: usize = self.transitions.len();
        proof {
            assert(self.transitions@.subrange(0, i as int) =~= self.transitions@);
        }
        while i > 0
            invariant
                i <= self.transitions@.len(),
                f@ == from@,
                t@ == to@,
                latest_transition(self.transitions@, from@, to@) == latest_transition(
                    self.transitions@.subrange(0, i as int),
                    from@,
                    to@,
                ),
            decreases i,
        {
            let e = &self.transitions[i - 1];
            proof {
                assert(self.transitions@.subrange(0, i as int).drop_last() =~= self.transitions@.subrange(0, i - 1));
            }
            if e.from == f && e.to == t {
                return e.time_ms;
            }
            i -= 1;
        }
        self.default_ms
    }

    pub fn with_default(self, default_ms: i64) -> (r: Self)
        ensures
            r == (TransitionMatrix { default_ms, ..self }),
    {
        TransitionMatrix { default_ms, ..self }
    }
}

/// The first matrix of a list that belongs to the resource.
pub open spec fn matrix_for(m: Seq<TransitionMatrix>, resource: Seq<char>) -> Option<TransitionMatrix>
    decreases m.len(),
{
    if m.len() == 0 {
        None
    } else if m[0].resource_id@ == resource {
        Some(m[0])
    } else {
        matrix_for(m.drop_first(), resource)
    }
}

/// Transition matrices of several resources.
#[derive(Debug, Clone)]
pub struct TransitionMatrixCollection {
    pub matrices: Vec<TransitionMatrix>,
}

impl TransitionMatrixCollection {
    /// The setup time on `resource` from category `from` to `to`: the time
    /// given by the resource's first matrix, or 0 when it has none.
    pub open spec fn setup_time(&self, resource: Seq<char>, from: Seq<char>, to: Seq<char>) -> i64 {
        match matrix_for(self.matrices@, resource) {
            Some(m) => m.time(from, to),
            None => 0,
        }
    }

    pub fn new() -> (r: Self)
        ensures
            r.matrices@.len() == 0,
    {
        TransitionMatrixCollection { matrices: Vec::new() }
    }

    pub fn add(&mut self, matrix: TransitionMatrix)
        ensures
            final(self).matrices@ == old(self).matrices@.push(matrix),
    {
        self.matrices.push(matrix);
    }

    /// The first matrix that belongs to the resource.
    pub fn get_for_resource(&self, resource_id: &str) -> (r: Option<&TransitionMatrix>)
        ensures
            r is None <==> matrix_for(self.matrices@, resource_id@) is None,
            r matches Some(m) ==> matrix_for(self.matrices@, resource_id@) == Some(*m),
    {
        let mut i: usize = 0;
        proof {
            assert(self.matrices@.subrange(0, self.matrices@.len() as int) =~= self.matrices@);
        }
        while i < self.matrices.len()
            invariant
                i <= self.matrices@.len(),
                matrix_for(self.matrices@, resource_id@) == matrix_for(
                    self.matrices@.subrange(i as int, self.matrices@.len() as int),
                    resource_id@,
                ),
            decreases self.matrices@.len() - i,
        {
            proof {
                let s = self.matrices@.subrange(i as int, self.matrices@.len() as int);
                assert(s.drop_first() =~= self.matrices@.subrange(i + 1, self.matrices@.len() as int));
            }
            if same_text(&self.matrices[i].resource_id, resource_id) {
                return Some(&self.matrices[i]);
            }
            i += 1;
        }
        None
    }

    pub fn get_transition_time(&self, resource_id: &str, from: &str, to: &str) -> (r: i64)
        ensures
            r == self.setup_time(resource_id@, from@, to@),
    {
        match self.get_for_resource(resource_id) {
            Some(m) => m.get_transition(from, to),
            None => 0,
        }
    }
}

impl Default for TransitionMatrixCollection {
    fn default() -> (r: Self)
        ensures
            r.matrices@.len() == 0,
    {
        TransitionMatrixCollection::new()
    }
}

} // verus!

//! Decision variables: times, durations, booleans, integers and intervals.
use vstd::prelude::*;

verus! {

/// A time in `[min, max]`, possibly fixed.
#[derive(Debug, Clone, Copy, PartialEq, Eq)]
pub struct TimeVar {
    pub min: i64,
    pub max: i64,
    pub fixed: Option<i64>,
}

impl TimeVar {
    /// The variable that `new` makes.
    pub open spec fn new_spec(min: i64, max: i64) -> TimeVar {
        TimeVar { min, max, fixed: None }
    }

    pub fn new(min: i64, max: i64) -> (r: Self)
        ensures
            r == (TimeVar { min, max, fixed: None }),
    {
        TimeVar { min, max, fixed: None }
    }

    pub fn fixed(value: i64) -> (r: Self)
        ensures
            r == (TimeVar { min: value, max: value, fixed: Some(value) }),
    {
        TimeVar { min: value, max: value, fixed: Some(value) }
    }

    pub fn is_fixed(&self) -> (r: bool)
        ensures
            r == self.fixed is Some,
    {
        self.fixed.is_some()
    }
}

/// A duration in `[min, max]`, possibly fixed.
#[derive(Debug, Clone, Copy, PartialEq, Eq)]
pub struct DurationVar {
    pub min: i64,
    pub max: i64,
    pub fixed: Option<i64>,
}

impl DurationVar {
    pub fn new(min: i64, max: i64) -> (r: Self)
        ensures
            r == (DurationVar { min, max, fixed: None }),
    {
        DurationVar { min, max, fixed: None }
    }

    pub fn fixed(value: i64) -> (r: Self)
        ensures
            r == (DurationVar { min: value, max: value, fixed: Some(value) }),
    {
        DurationVar { min: value, max: value, fixed: Some(value) }
    }
}

/// A named boolean, possibly fixed.
#[derive(Debug, Clone)]
pub struct BoolVar {
    pub name: String,
    pub fixed: Option<bool>,
}

impl BoolVar {
    pub fn new(name: &str) -> (r: Self)
        ensures
            r.name@ == name@,
            r.fixed is None,
    {
        BoolVar { name: name.to_owned(), fixed: None }
    }
}

/// A named integer in `[min, max]`, possibly fixed.
#[derive(Debug, Clone)]
pub struct IntVar {
    pub name: String,
    pub min: i64,
    pub max: i64,
    pub fixed: Option<i64>,
}

impl IntVar {
    pub fn new(name: &str, min: i64, max: i64) -> (r: Self)
        ensures
            r.name@ == name@,
            r.min == min,
            r.max == max,
            r.fixed is None,
    {
        IntVar { name: name.to_owned(), min, max, fixed: None }
    }
}

/// An interval of time with a start, an end and a duration.
#[derive(Debug, Clone)]
pub struct IntervalVar {
    pub name: String,
    pub start: TimeVar,
    pub end: TimeVar,
    pub duration: DurationVar,
    pub is_optional: bool,
    /// Whether the interval is present, for an optional interval.
    pub presence: Option<BoolVar>,
}

impl IntervalVar {
    /// An interval of fixed duration starting within `[start_min, start_max]`
    /// and ending by `end_max`.
    pub fn new(name: &str, start_min: i64, start_max: i64, duration: i64, end_max: i64) -> (r: Self)
        requires
            i64::MIN <= start_min + duration <= i64::MAX,
        ensures
            r.name@ == name@,
            r.start == TimeVar::new_spec(start_min, start_max),
            r.end == TimeVar::new_spec((start_min + duration) as i64, end_max),
            r.duration == (DurationVar { min: duration, max: duration, fixed: Some(duration) }),
            !r.is_optional,
            r.presence is None,
    {
        IntervalVar {
            name: name.to_owned(),
            start: TimeVar::new(start_min, start_max),
            end: TimeVar::new(start_min + duration, end_max),
            duration: DurationVar::fixed(duration),
            is_optional: false,
            presence: None,
        }
    }

    /// Makes the interval optional, present when the named boolean holds.
    pub fn as_optional(self, presence_name: &str) -> (r: Self)
        ensures
            r.is_optional,
            r.presence matches Some(p) && p.name@ == presence_name@ && p.fixed is None,
            r.name == self.name && r.start == self.start && r.end == self.end && r.duration == self.duration,
    {
        IntervalVar { is_optional: true, presence: Some(BoolVar::new(presence_name)), ..self }
    }

    /// Lets the duration range over `[min, max]`.
    pub fn with_variable_duration(self, min: i64, max: i64) -> (r: Self)
        ensures
            r.duration == (DurationVar { min, max, fixed: None }),
            r.name == self.name && r.start == self.start && r.end == self.end,
            r.is_optional == self.is_optional && r.presence == self.presence,
    {
        IntervalVar { duration: DurationVar::new(min, max), ..self }
    }
}

} // verus!

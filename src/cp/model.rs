//! A constraint-programming model: variables, constraints, objective.
use vstd::prelude::*;
use crate::text::same_text;
use crate::cp::variables::{BoolVar, IntVar, IntervalVar};
use vstd::string::StringExecFns;

verus! {

/// The first position of the text in the list.
pub open spec fn position_of(types: Seq<String>, t: Seq<char>) -> Option<int> {
    if exists|i: int| 0 <= i < types.len() && types[i]@ == t {
        Some(choose|i: int| 0 <= i < types.len() && types[i]@ == t && forall|k: int| 0 <= k < i ==> types[k]@ != t)
    } else {
        None
    }
}

fn find_type(types: &Vec<String>, t: &str) -> (r: Option<usize>)
    ensures
        r matches Some(i) ==> i < types@.len() && types@[i as int]@ == t@
            && forall|k: int| 0 <= k < i ==> types@[k]@ != t@,
        r is None ==> forall|k: int| 0 <= k < types@.len() ==> types@[k]@ != t@,
{
    let mut i: usize = 0;
    while i < types.len()
        invariant
            i <= types@.len(),
            forall|k: int| 0 <= k < i ==> types@[k]@ != t@,
        decreases types@.len() - i,
    {
        if same_text(&types[i], t) {
            return Some(i);
        }
        i += 1;
    }
    None
}

/// Setup times between types, as a square matrix indexed like `types`.
#[derive(Debug, Clone)]
pub struct TransitionMatrix {
    pub types: Vec<String>,
    pub times: Vec<Vec<i64>>,
}

impl TransitionMatrix {
    /// The matrix is square, of the size of the type list.
    pub open spec fn wf(&self) -> bool {
        &&& self.times@.len() == self.types@.len()
        &&& forall|i: int| 0 <= i < self.times@.len() ==> (#[trigger] self.times@[i])@.len() == self.types@.len()
    }

    /// The time from the first type named `from` to the first named `to`, or
    /// 0 when a name is unknown.
    pub open spec fn time(&self, from: Seq<char>, to: Seq<char>) -> i64 {
        match (position_of(self.types@, from), position_of(self.types@, to)) {
            (Some(i), Some(j)) => self.times@[i]@[j],
            _ => 0,
        }
    }

    /// A matrix of zeros for the types.
    pub fn new(types: Vec<String>) -> (r: Self)
        ensures
            r.wf(),
            r.types == types,
            forall|i: int, j: int| 0 <= i < types@.len() && 0 <= j < types@.len() ==> r.times@[i]@[j] == 0,
    {
        let n = types.len();
        let mut times: Vec<Vec<i64>> = Vec::new();
        let mut i: usize = 0;
        while i < n
            invariant
                i <= n,
                n == types@.len(),
                times@.len() == i,
                forall|k: int| 0 <= k < i ==> (#[trigger] times@[k])@.len() == n,
                forall|k: int, j: int| 0 <= k < i && 0 <= j < n ==> times@[k]@[j] == 0,
            decreases n - i,
        {
            let mut row: Vec<i64> = Vec::new();
            let mut j: usize = 0;
            while j < n
                invariant
                    j <= n,
                    row@.len() == j,
                    forall|k: int| 0 <= k < j ==> row@[k] == 0,
                decreases n - j,
            {
                row.push(0);
                j += 1;
            }
            times.push(row);
            i += 1;
        }
        TransitionMatrix { types, times }
    }

    /// Sets the time between two known types; unknown names change nothing.
    pub fn set_time(&mut self, from: &str, to: &str, time: i64)
        requires
            old(self).wf(),
        ensures
            final(self).wf(),
            final(self).types == old(self).types,
            (position_of(old(self).types@, from@) is Some && position_of(old(self).types@, to@) is Some)
                ==> final(self).time(from@, to@) == time,
            (position_of(old(self).types@, from@) is None || position_of(old(self).types@, to@) is None)
                ==> final(self).times@ == old(self).times@,
            forall|a: int, b: int| 0 <= a < old(self).types@.len() && 0 <= b < old(self).types@.len()
                && !(position_of(old(self).types@, from@) == Some(a) && position_of(old(self).types@, to@) == Some(b))
                ==> #[trigger] final(self).times@[a]@[b] == old(self).times@[a]@[b],
    {
        let fi = find_type(&self.types, from);
        let ti = find_type(&self.types, to);
        proof {
            self.lemma_position(fi, from@);
            self.lemma_position(ti, to@);
        }
        if let (Some(i), Some(j)) = (fi, ti) {
            let mut row = self.times[i].clone();
            row.set(j, time);
            self.times.set(i, row);
            proof {
                assert forall|k: int| 0 <= k < self.times@.len() implies (#[trigger] self.times@[k])@.len() == self.types@.len() by {
                    if k != i {
                        assert(self.times@[k] == old(self).times@[k]);
                    }
                }
                assert forall|a: int, b: int| 0 <= a < old(self).types@.len() && 0 <= b < old(self).types@.len()
                    && !(position_of(old(self).types@, from@) == Some(a) && position_of(old(self).types@, to@) == Some(b))
                    implies #[trigger] self.times@[a]@[b] == old(self).times@[a]@[b] by {
                    if a != i {
                        assert(self.times@[a] == old(self).times@[a]);
                    }
                }
            }
        }
    }

    proof fn lemma_position(&self, r: Option<usize>, t: Seq<char>)
        requires
            r matches Some(i) ==> i < self.types@.len() && self.types@[i as int]@ == t
                && forall|k: int| 0 <= k < i ==> self.types@[k]@ != t,
            r is None ==> forall|k: int| 0 <= k < self.types@.len() ==> self.types@[k]@ != t,
        ensures
            r matches Some(i) ==> position_of(self.types@, t) == Some(i as int),
            r is None ==> position_of(self.types@, t) is None,
    {
        if let Some(i) = r {
            assert(self.types@[i as int]@ == t);
            let c = choose|c: int| 0 <= c < self.types@.len() && self.types@[c]@ == t && forall|k: int| 0 <= k < c ==> self.types@[k]@ != t;
            if c < i {
                assert(self.types@[c]@ != t);
            }
            if c > i {
                assert(self.types@[i as int]@ != t);
            }
        }
    }

    /// The time between two types, 0 when a name is unknown.
    pub fn get_time(&self, from: &str, to: &str) -> (r: i64)
        requires
            self.wf(),
        ensures
            r == self.time(from@, to@),
    {
        let fi = find_type(&self.types, from);
        let ti = find_type(&self.types, to);
        proof {
            self.lemma_position(fi, from@);
            self.lemma_position(ti, to@);
        }
        match (fi, ti) {
            (Some(i), Some(j)) => self.times[i][j],
            _ => 0,
        }
    }
}

/// A constraint between interval variables, named by their names.
#[derive(Debug, Clone)]
pub enum Constraint {
    /// The intervals do not overlap, with setup times if a matrix is given.
    NoOverlap { intervals: Vec<String>, transition_matrix: Option<TransitionMatrix> },
    /// The demands of overlapping intervals stay within the capacity.
    Cumulative { intervals: Vec<String>, demands: Vec<i64>, capacity: i64 },
    /// `after` starts at least `min_delay` after `before` ends.
    Precedence { before: String, after: String, min_delay: i64 },
    SameStart { interval1: String, interval2: String },
    SameEnd { interval1: String, interval2: String },
    /// Exactly one of the alternatives takes the place of `main`.
    Alternative { main: String, alternatives: Vec<String> },
}

/// What a solver minimises. Weights are in thousandths.
#[derive(Debug, Clone)]
pub enum Objective {
    MinimizeMakespan,
    MinimizeTotalTardiness { due_dates: Vec<(String, i64)>, weights: Vec<(String, i64)> },
    MinimizeWeightedSum { terms: Vec<(String, i64)> },
}

/// Some interval of the list has the name.
pub open spec fn defines(intervals: Seq<IntervalVar>, name: Seq<char>) -> bool {
    exists|i: int| 0 <= i < intervals.len() && #[trigger] intervals[i].name@ == name
}

/// Every name of the list is an interval of the model.
pub open spec fn all_defined(intervals: Seq<IntervalVar>, names: Seq<String>) -> bool {
    forall|k: int| 0 <= k < names.len() ==> #[trigger] defines(intervals, names[k]@)
}

/// The intervals that the constraint names exist, and a cumulative
/// constraint has one demand per interval.
pub open spec fn constraint_ok(intervals: Seq<IntervalVar>, c: Constraint) -> bool {
    match c {
        Constraint::NoOverlap { intervals: names, .. } => all_defined(intervals, names@),
        Constraint::Cumulative { intervals: names, demands, .. } => names@.len() == demands@.len()
            && all_defined(intervals, names@),
        Constraint::Precedence { before, after, .. } => defines(intervals, before@) && defines(intervals, after@),
        _ => true,
    }
}

/// A declarative scheduling model over named variables.
#[derive(Debug, Clone)]
pub struct CpModel {
    pub name: String,
    /// Interval variables; a later one replaces an earlier of the same name.
    pub intervals: Vec<IntervalVar>,
    pub int_vars: Vec<IntVar>,
    pub bool_vars: Vec<BoolVar>,
    pub constraints: Vec<Constraint>,
    pub objective: Option<Objective>,
    /// End of the planning horizon.
    pub horizon: i64,
}

fn has_interval(intervals: &Vec<IntervalVar>, name: &String) -> (r: bool)
    ensures
        r == defines(intervals@, name@),
{
    let mut i: usize = 0;
    while i < intervals.len()
        invariant
            i <= intervals@.len(),
            forall|k: int| 0 <= k < i ==> #[trigger] intervals@[k].name@ != name@,
        decreases intervals@.len() - i,
    {
        if intervals[i].name == *name {
            return true;
        }
        i += 1;
    }
    false
}

/// The first name of the list that is not an interval, if any.
fn first_undefined(intervals: &Vec<IntervalVar>, names: &Vec<String>) -> (r: Option<usize>)
    ensures
        r is None <==> all_defined(intervals@, names@),
        r matches Some(k) ==> k < names@.len(),
{
    let mut k: usize = 0;
    while k < names.len()
        invariant
            k <= names@.len(),
            forall|j: int| 0 <= j < k ==> #[trigger] defines(intervals@, names@[j]@),
        decreases names@.len() - k,
    {
        if !has_interval(intervals, &names[k]) {
            return Some(k);
        }
        k += 1;
    }
    None
}

fn undefined_message(name: &String) -> (r: String)
    ensures
        r@ == "Undefined interval: "@ + name@,
{
    let mut m = "Undefined interval: ".to_owned();
    m.append(name.as_str());
    m
}

impl CpModel {
    /// Every constraint names existing intervals only.
    pub open spec fn consistent(&self) -> bool {
        forall|c: int| 0 <= c < self.constraints@.len() ==> #[trigger] constraint_ok(self.intervals@, self.constraints@[c])
    }

    pub fn new(name: &str, horizon: i64) -> (r: Self)
        ensures
            r.name@ == name@,
            r.horizon == horizon,
            r.intervals@.len() == 0,
            r.int_vars@.len() == 0,
            r.bool_vars@.len() == 0,
            r.constraints@.len() == 0,
            r.objective is None,
    {
        CpModel {
            name: name.to_owned(),
            intervals: Vec::new(),
            int_vars: Vec::new(),
            bool_vars: Vec::new(),
            constraints: Vec::new(),
            objective: None,
            horizon,
        }
    }

    /// Adds an interval, replacing one of the same name.
    pub fn add_interval(&mut self, var: IntervalVar)
        ensures
            defines(final(self).intervals@, var.name@),
            forall|n: Seq<char>| #[trigger] defines(old(self).intervals@, n) ==> defines(final(self).intervals@, n),
            forall|n: Seq<char>| #[trigger] defines(final(self).intervals@, n) ==> defines(old(self).intervals@, n) || n == var.name@,
            final(self).constraints == old(self).constraints,
    {
        let mut i: usize = 0;
        while i < self.intervals.len()
            invariant
                i <= self.intervals@.len(),
                self.intervals == old(self).intervals,
                self.constraints == old(self).constraints,
                forall|k: int| 0 <= k < i ==> #[trigger] self.intervals@[k].name@ != var.name@,
            decreases self.intervals@.len() - i,
        {
            if self.intervals[i].name == var.name {
                let ghost before = self.intervals@;
                self.intervals.set(i, var);
                proof {
                    assert(self.intervals@[i as int].name@ == var.name@);
                    assert forall|n: Seq<char>| #[trigger] defines(before, n) implies defines(self.intervals@, n) by {
                        let k = choose|k: int| 0 <= k < before.len() && #[trigger] before[k].name@ == n;
                        if k != i {
                            assert(self.intervals@[k] == before[k]);
                        }
                    }
                    assert forall|n: Seq<char>| #[trigger] defines(self.intervals@, n) implies defines(before, n) || n == var.name@ by {
                        let k = choose|k: int| 0 <= k < self.intervals@.len() && #[trigger] self.intervals@[k].name@ == n;
                        if k != i {
                            assert(self.intervals@[k] == before[k]);
                        }
                    }
                }
                return;
            }
            i += 1;
        }
        let ghost before = self.intervals@;
        self.intervals.push(var);
        proof {
            assert(self.intervals@[before.len() as int].name@ == var.name@);
            assert forall|n: Seq<char>| #[trigger] defines(before, n) implies defines(self.intervals@, n) by {
                let k = choose|k: int| 0 <= k < before.len() && #[trigger] before[k].name@ == n;
                assert(self.intervals@[k] == before[k]);
            }
            assert forall|n: Seq<char>| #[trigger] defines(self.intervals@, n) implies defines(before, n) || n == var.name@ by {
                let k = choose|k: int| 0 <= k < self.intervals@.len() && #[trigger] self.intervals@[k].name@ == n;
                if k < before.len() {
                    assert(self.intervals@[k] == before[k]);
                }
            }
        }
    }

    pub fn add_int_var(&mut self, var: IntVar)
        ensures
            final(self).int_vars@.len() >= 1,
            final(self).intervals == old(self).intervals,
            final(self).constraints == old(self).constraints,
    {
        let mut i: usize = 0;
        while i < self.int_vars.len()
            invariant
                i <= self.int_vars@.len(),
                self.intervals == old(self).intervals,
                self.constraints == old(self).constraints,
            decreases self.int_vars@.len() - i,
        {
            if self.int_vars[i].name == var.name {
                self.int_vars.set(i, var);
                return;
            }
            i += 1;
        }
        self.int_vars.push(var);
    }

    pub fn add_bool_var(&mut self, var: BoolVar)
        ensures
            final(self).bool_vars@.len() >= 1,
            final(self).intervals == old(self).intervals,
            final(self).constraints == old(self).constraints,
    {
        let mut i: usize = 0;
        while i < self.bool_vars.len()
            invariant
                i <= self.bool_vars@.len(),
                self.intervals == old(self).intervals,
                self.constraints == old(self).constraints,
            decreases self.bool_vars@.len() - i,
        {
            if self.bool_vars[i].name == var.name {
                self.bool_vars.set(i, var);
                return;
            }
            i += 1;
        }
        self.bool_vars.push(var);
    }

    pub fn add_constraint(&mut self, constraint: Constraint)
        ensures
            final(self).constraints@ == old(self).constraints@.push(constraint),
            final(self).intervals == old(self).intervals,
    {
        self.constraints.push(constraint);
    }

    pub fn add_no_overlap(&mut self, intervals: Vec<String>)
        ensures
            final(self).constraints@ == old(self).constraints@.push(Constraint::NoOverlap { intervals, transition_matrix: None }),
            final(self).intervals == old(self).intervals,
    {
        self.constraints.push(Constraint::NoOverlap { intervals, transition_matrix: None });
    }

    pub fn add_no_overlap_with_setup(&mut self, intervals: Vec<String>, matrix: TransitionMatrix)
        ensures
            final(self).constraints@ == old(self).constraints@.push(Constraint::NoOverlap { intervals, transition_matrix: Some(matrix) }),
            final(self).intervals == old(self).intervals,
    {
        self.constraints.push(Constraint::NoOverlap { intervals, transition_matrix: Some(matrix) });
    }

    pub fn add_cumulative(&mut self, intervals: Vec<String>, demands: Vec<i64>, capacity: i64)
        ensures
            final(self).constraints@ == old(self).constraints@.push(Constraint::Cumulative { intervals, demands, capacity }),
            final(self).intervals == old(self).intervals,
    {
        self.constraints.push(Constraint::Cumulative { intervals, demands, capacity });
    }

    pub fn add_precedence(&mut self, before: String, after: String, min_delay: i64)
        ensures
            final(self).constraints@ == old(self).constraints@.push(Constraint::Precedence { before, after, min_delay }),
            final(self).intervals == old(self).intervals,
    {
        self.constraints.push(Constraint::Precedence { before, after, min_delay });
    }

    pub fn set_objective(&mut self, objective: Objective)
        ensures
            final(self).objective == Some(objective),
            final(self).intervals == old(self).intervals,
            final(self).constraints == old(self).constraints,
    {
        self.objective = Some(objective);
    }

    pub fn minimize_makespan(&mut self)
        ensures
            final(self).objective matches Some(Objective::MinimizeMakespan),
            final(self).intervals == old(self).intervals,
            final(self).constraints == old(self).constraints,
    {
        self.objective = Some(Objective::MinimizeMakespan);
    }

    /// `Ok` when every constraint names existing intervals and each
    /// cumulative constraint has one demand per interval; otherwise an error
    /// about the first constraint that does not.
    pub fn validate(&self) -> (r: Result<(), String>)
        ensures
            r is Ok <==> self.consistent(),
    {
        let mut c: usize = 0;
        while c < self.constraints.len()
            invariant
                c <= self.constraints@.len(),
                forall|k: int| 0 <= k < c ==> #[trigger] constraint_ok(self.intervals@, self.constraints@[k]),
            decreases self.constraints@.len() - c,
        {
            match &self.constraints[c] {
                Constraint::NoOverlap { intervals, .. } => {
                    if let Some(k) = first_undefined(&self.intervals, intervals) {
                        proof { assert(!constraint_ok(self.intervals@, self.constraints@[c as int])); }
                        return Err(undefined_message(&intervals[k]));
                    }
                },
                Constraint::Cumulative { intervals, demands, .. } => {
                    if intervals.len() != demands.len() {
                        proof { assert(!constraint_ok(self.intervals@, self.constraints@[c as int])); }
                        return Err("Cumulative: intervals and demands length mismatch".to_owned());
                    }
                    if let Some(k) = first_undefined(&self.intervals, intervals) {
                        proof { assert(!constraint_ok(self.intervals@, self.constraints@[c as int])); }
                        return Err(undefined_message(&intervals[k]));
                    }
                },
                Constraint::Precedence { before, after, .. } => {
                    if !has_interval(&self.intervals, before) {
                        proof { assert(!constraint_ok(self.intervals@, self.constraints@[c as int])); }
                        return Err(undefined_message(before));
                    }
                    if !has_interval(&self.intervals, after) {
                        proof { assert(!constraint_ok(self.intervals@, self.constraints@[c as int])); }
                        return Err(undefined_message(after));
                    }
                },
                _ => {},
            }
            c += 1;
        }
        Ok(())
    }
}

} // verus!

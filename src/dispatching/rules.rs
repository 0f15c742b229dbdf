//! The built-in dispatching rules. Scores are fixed-point numbers counted
//! in millionths; quotients are rounded down.
use vstd::prelude::*;
use crate::dispatching::context::{SchedulingContext, latest_value, lookup};
use crate::models::task::{Task, sum_total};

verus! {

/// Score units per unit: a score of 1 is `Finite(1_000_000)`.
pub const SCORE_SCALE: i128 = 1_000_000;

/// Bound on the magnitude of a finite score of a built-in rule.
pub const SCORE_BOUND: i128 = 0x40_0000_0000_0000_0000_0000;

/// A priority score: lower is more urgent; `Infinite` is least urgent.
#[derive(Debug, Clone, Copy, PartialEq, Eq)]
pub enum Score {
    Finite(i128),
    Infinite,
}

impl Score {
    pub fn is_infinite(&self) -> (r: bool)
        ensures
            r == (*self is Infinite),
    {
        match self {
            Score::Infinite => true,
            Score::Finite(_) => false,
        }
    }

    /// The score in millionths, when finite.
    pub fn micros(&self) -> (r: Option<i128>)
        ensures
            r == match *self {
                Score::Finite(v) => Some(v),
                Score::Infinite => None,
            },
    {
        match self {
            Score::Finite(v) => Some(*v),
            Score::Infinite => None,
        }
    }
}

/// A finite score lies within the bound.
pub open spec fn bounded(s: Score) -> bool {
    s matches Score::Finite(v) ==> -SCORE_BOUND <= v <= SCORE_BOUND
}

/// Every prefix sum of the task's activity durations fits in 64 bits.
pub open spec fn work_fits(task: Task) -> bool {
    forall|k: int| 0 <= k <= task.activities@.len()
        ==> i64::MIN <= #[trigger] sum_total(task.activities@.subrange(0, k)) <= i64::MAX
}

/// Total duration of the task's activities.
pub open spec fn work(task: Task) -> int {
    sum_total(task.activities@)
}

/// Remaining work of the task: the context's figure, else the total duration.
pub open spec fn remaining(task: Task, ctx: SchedulingContext) -> int {
    match latest_value(ctx.remaining_work@, task.id@) {
        Some(v) => v as int,
        None => work(task),
    }
}

/// `a / b` rounded down, for positive `b`.
pub open spec fn floor_div(a: int, b: int) -> int {
    a / b
}

fn div_down(a: i128, b: i128) -> (r: i128)
    requires
        b > 0,
        -0x1_0000_0000_0000_0000_0000_0000_0000 <= a <= 0x1_0000_0000_0000_0000_0000_0000_0000,
        b <= 0x1_0000_0000_0000_0000_0000_0000_0000,
    ensures
        r == floor_div(a as int, b as int),
{
    if a >= 0 {
        a / b
    } else {
        let m = -a;
        let q = (m + b - 1) / b;
        proof {
            let ai = a as int;
            let bi = b as int;
            let mi = m as int;
            let qi = q as int;
            assert(qi == (mi + bi - 1) / bi);
            assert(ai / bi == -qi) by (nonlinear_arith)
                requires mi == -ai, ai < 0, bi > 0, qi == (mi + bi - 1) / bi;
        }
        -q
    }
}

/// Total duration of the task's activities.
pub fn total_work(task: &Task) -> (r: i64)
    requires
        work_fits(*task),
    ensures
        r == work(*task),
{
    let mut sum: i64 = 0;
    let mut i: usize = 0;
    while i < task.activities.len()
        invariant
            i <= task.activities@.len(),
            work_fits(*task),
            sum == sum_total(task.activities@.subrange(0, i as int)),
        decreases task.activities@.len() - i,
    {
        proof {
            assert(task.activities@.subrange(0, i + 1).drop_last() =~= task.activities@.subrange(0, i as int));
            assert(i64::MIN <= sum_total(task.activities@.subrange(0, i + 1)) <= i64::MAX);
        }
        let d = task.activities[i].duration;
        let next: i128 = sum as i128 + d.setup_ms as i128 + d.process_ms as i128 + d.teardown_ms as i128;
        sum = next as i64;
        i += 1;
    }
    proof {
        assert(task.activities@.subrange(0, i as int) =~= task.activities@);
    }
    sum
}

fn remaining_work(task: &Task, ctx: &SchedulingContext) -> (r: i64)
    requires
        work_fits(*task),
    ensures
        r == remaining(*task, *ctx),
{
    match lookup(&ctx.remaining_work, task.id.as_str()) {
        Some(v) => v,
        None => total_work(task),
    }
}

/// The least utilization recorded for any of the resources, if any.
pub open spec fn least_utilization(cands: Seq<String>, util: Seq<(String, i64)>) -> Option<i64>
    decreases cands.len(),
{
    if cands.len() == 0 {
        None
    } else {
        let rest = least_utilization(cands.drop_last(), util);
        match latest_value(util, cands.last()@) {
            None => rest,
            Some(u) => match rest {
                None => Some(u),
                Some(m) => Some(if u < m { u } else { m }),
            },
        }
    }
}

/// The built-in rules.
#[derive(Debug, Clone, Copy, PartialEq, Eq)]
pub enum Rule {
    Spt,
    Lpt,
    Lwkr,
    Mwkr,
    Wspt,
    Edd,
    Mst,
    Cr,
    Sro,
    Fifo,
    Winq,
    Lpul,
}

/// The score that a rule gives a task in a context.
pub open spec fn rule_score(rule: Rule, task: Task, ctx: SchedulingContext) -> Score {
    let s = SCORE_SCALE as int;
    match rule {
        Rule::Spt => Score::Finite((work(task) * s) as i128),
        Rule::Lpt => Score::Finite((-work(task) * s) as i128),
        Rule::Lwkr => Score::Finite((remaining(task, ctx) * s) as i128),
        Rule::Mwkr => Score::Finite((-remaining(task, ctx) * s) as i128),
        Rule::Wspt => {
            let den = (task.priority as int + 1) * work(task);
            if work(task) <= 0 || task.priority as int + 1 == 0 {
                Score::Infinite
            } else if den > 0 {
                Score::Finite(floor_div(-1000 * s, den) as i128)
            } else {
                Score::Finite(floor_div(1000 * s, -den) as i128)
            }
        },
        Rule::Edd => match task.deadline {
            Some(d) => Score::Finite((d as int * s) as i128),
            None => Score::Infinite,
        },
        Rule::Mst => match task.deadline {
            Some(d) => Score::Finite(((d as int - ctx.current_time as int - remaining(task, ctx)) * s) as i128),
            None => Score::Infinite,
        },
        Rule::Cr => match task.deadline {
            Some(d) => if remaining(task, ctx) <= 0 {
                Score::Infinite
            } else {
                Score::Finite(floor_div((d as int - ctx.current_time as int) * s, remaining(task, ctx)) as i128)
            },
            None => Score::Infinite,
        },
        Rule::Sro => match task.deadline {
            Some(d) => {
                let ops = if task.activities@.len() > 1 { task.activities@.len() as int } else { 1 };
                Score::Finite(floor_div((d as int - ctx.current_time as int - remaining(task, ctx)) * s, ops) as i128)
            },
            None => Score::Infinite,
        },
        Rule::Fifo => match latest_value(ctx.arrival_times@, task.id@) {
            Some(a) => Score::Finite((a as int * s) as i128),
            None => match task.release_time {
                Some(r) => Score::Finite((r as int * s) as i128),
                None => Score::Finite(0),
            },
        },
        Rule::Winq => match latest_value(ctx.next_queue_length@, task.id@) {
            Some(q) => Score::Finite((q as int * s) as i128),
            None => Score::Finite(0),
        },
        Rule::Lpul => if task.activities@.len() == 0 {
            Score::Finite(0)
        } else {
            match least_utilization(task.activities@[0].candidates(), ctx.resource_utilization@) {
                Some(u) => Score::Finite(u as i128),
                None => Score::Finite(0),
            }
        },
    }
}

fn least_utilization_of(cands: &Vec<String>, ctx: &SchedulingContext) -> (r: Option<i64>)
    ensures
        r == least_utilization(cands@, ctx.resource_utilization@),
{
    let mut best: Option<i64> = None;
    let mut i: usize = 0;
    while i < cands.len()
        invariant
            i <= cands@.len(),
            best == least_utilization(cands@.subrange(0, i as int), ctx.resource_utilization@),
        decreases cands@.len() - i,
    {
        proof {
            assert(cands@.subrange(0, i + 1).drop_last() =~= cands@.subrange(0, i as int));
        }
        match lookup(&ctx.resource_utilization, cands[i].as_str()) {
            None => {},
            Some(u) => {
                best = match best {
                    None => Some(u),
                    Some(m) => Some(if u < m { u } else { m }),
                };
            },
        }
        i += 1;
    }
    proof {
        assert(cands@.subrange(0, i as int) =~= cands@);
    }
    best
}

impl Rule {
    /// The rule's short name.
    pub fn name(&self) -> &'static str {
        match self {
            Rule::Spt => "SPT",
            Rule::Lpt => "LPT",
            Rule::Lwkr => "LWKR",
            Rule::Mwkr => "MWKR",
            Rule::Wspt => "WSPT",
            Rule::Edd => "EDD",
            Rule::Mst => "MST",
            Rule::Cr => "CR",
            Rule::Sro => "S/RO",
            Rule::Fifo => "FIFO",
            Rule::Winq => "WINQ",
            Rule::Lpul => "LPUL",
        }
    }

    /// What the rule favours.
    pub fn description(&self) -> &'static str {
        match self {
            Rule::Spt => "Shortest Processing Time - prioritize shorter tasks",
            Rule::Lpt => "Longest Processing Time - prioritize longer tasks",
            Rule::Lwkr => "Least Work Remaining - prioritize tasks near completion",
            Rule::Mwkr => "Most Work Remaining - prioritize tasks with most work left",
            Rule::Wspt => "Weighted Shortest Processing Time - prioritize by weight/time ratio",
            Rule::Edd => "Earliest Due Date - prioritize nearest deadlines",
            Rule::Mst => "Minimum Slack Time - prioritize tasks with least buffer",
            Rule::Cr => "Critical Ratio - prioritize tasks falling behind schedule",
            Rule::Sro => "Slack per Remaining Operations - slack distributed across operations",
            Rule::Fifo => "First In First Out - process in arrival order",
            Rule::Winq => "Work In Next Queue - prefer shorter downstream queues",
            Rule::Lpul => "Least Planned Utilization Level - use underutilized resources",
        }
    }

    /// The task's score under this rule.
    pub fn evaluate(&self, task: &Task, context: &SchedulingContext) -> (r: Score)
        requires
            work_fits(*task),
        ensures
            r == rule_score(*self, *task, *context),
            bounded(r),
    {
        let s = SCORE_SCALE;
        match self {
            Rule::Spt => Score::Finite(total_work(task) as i128 * s),
            Rule::Lpt => Score::Finite(-(total_work(task) as i128) * s),
            Rule::Lwkr => Score::Finite(remaining_work(task, context) as i128 * s),
            Rule::Mwkr => Score::Finite(-(remaining_work(task, context) as i128) * s),
            Rule::Wspt => {
                let w = total_work(task) as i128;
                let p = task.priority as i128 + 1;
                if w <= 0 || p == 0 {
                    Score::Infinite
                } else {
                    proof {
                        assert(-0x1_0000_0000_0000_0000_0000_0000 <= p * w <= 0x1_0000_0000_0000_0000_0000_0000) by (nonlinear_arith)
                            requires -0x8000_0000 <= p <= 0x8000_0000, 0 < w <= 0x8000_0000_0000_0000;
                    }
                    let den = p * w;
                    proof {
                        assert((p as int) * (w as int) != 0) by (nonlinear_arith)
                            requires p != 0, w > 0;
                    }
                    if den > 0 {
                        let q = div_down(-1000 * s, den);
                        proof {
                            assert(-1_000_000_000int <= floor_div(-1_000_000_000int, den as int) <= 0) by (nonlinear_arith)
                                requires (den as int) > 0;
                        }
                        Score::Finite(q)
                    } else {
                        let q = div_down(1000 * s, -den);
                        proof {
                            assert(0 <= floor_div(1_000_000_000int, -(den as int)) <= 1_000_000_000int) by (nonlinear_arith)
                                requires (den as int) < 0;
                        }
                        Score::Finite(q)
                    }
                }
            },
            Rule::Edd => match task.deadline {
                Some(d) => Score::Finite(d as i128 * s),
                None => Score::Infinite,
            },
            Rule::Mst => match task.deadline {
                Some(d) => {
                    let rem = remaining_work(task, context) as i128;
                    Score::Finite((d as i128 - context.current_time as i128 - rem) * s)
                },
                None => Score::Infinite,
            },
            Rule::Cr => match task.deadline {
                Some(d) => {
                    let rem = remaining_work(task, context) as i128;
                    if rem <= 0 {
                        Score::Infinite
                    } else {
                        let num = (d as i128 - context.current_time as i128) * s;
                        let q = div_down(num, rem);
                        proof {
                            let ni = num as int;
                            let ri = rem as int;
                            assert(-abs_int(ni) <= floor_div(ni, ri) <= abs_int(ni)) by (nonlinear_arith)
                                requires ri >= 1;
                        }
                        Score::Finite(q)
                    }
                },
                None => Score::Infinite,
            },
            Rule::Sro => match task.deadline {
                Some(d) => {
                    let rem = remaining_work(task, context) as i128;
                    let n = task.activities.len();
                    let ops: i128 = if n > 1 {
                        proof {
                            assert(task.activities@.len() <= usize::MAX);
                        }
                        if n as u128 > 0x1_0000_0000_0000_0000_0000_0000_0000u128 {
                            0x1_0000_0000_0000_0000_0000_0000_0000
                        } else {
                            n as i128
                        }
                    } else {
                        1
                    };
                    let num = (d as i128 - context.current_time as i128 - rem) * s;
                    let q = div_down(num, ops);
                    proof {
                        let ni = num as int;
                        let oi = ops as int;
                        assert(-abs_int(ni) <= floor_div(ni, oi) <= abs_int(ni)) by (nonlinear_arith)
                            requires oi >= 1;
                    }
                    Score::Finite(q)
                },
                None => Score::Infinite,
            },
            Rule::Fifo => match lookup(&context.arrival_times, task.id.as_str()) {
                Some(a) => Score::Finite(a as i128 * s),
                None => match task.release_time {
                    Some(r) => Score::Finite(r as i128 * s),
                    None => Score::Finite(0),
                },
            },
            Rule::Winq => match lookup(&context.next_queue_length, task.id.as_str()) {
                Some(q) => Score::Finite(q as i128 * s),
                None => Score::Finite(0),
            },
            Rule::Lpul => if task.activities.len() == 0 {
                Score::Finite(0)
            } else {
                let cands = task.activities[0].candidate_resources();
                match least_utilization_of(&cands, context) {
                    Some(u) => Score::Finite(u as i128),
                    None => Score::Finite(0),
                }
            },
        }
    }
}

pub open spec fn abs_int(x: int) -> int {
    if x < 0 { -x } else { x }
}

/// Shortest Processing Time: the total duration of the activities.
#[derive(Debug, Clone, Copy)]
pub struct Spt;

impl Spt {
    /// This rule as a [`Rule`].
    pub fn rule(&self) -> (r: Rule)
        ensures
            r == Rule::Spt,
    {
        Rule::Spt
    }

    pub fn name(&self) -> &'static str {
        Rule::Spt.name()
    }

    pub fn description(&self) -> &'static str {
        Rule::Spt.description()
    }

    pub fn evaluate(&self, task: &Task, context: &SchedulingContext) -> (r: Score)
        requires
            work_fits(*task),
        ensures
            r == rule_score(Rule::Spt, *task, *context),
    {
        Rule::Spt.evaluate(task, context)
    }
}

/// Longest Processing Time: the total duration, negated.
#[derive(Debug, Clone, Copy)]
pub struct Lpt;

impl Lpt {
    /// This rule as a [`Rule`].
    pub fn rule(&self) -> (r: Rule)
        ensures
            r == Rule::Lpt,
    {
        Rule::Lpt
    }

    pub fn name(&self) -> &'static str {
        Rule::Lpt.name()
    }

    pub fn description(&self) -> &'static str {
        Rule::Lpt.description()
    }

    pub fn evaluate(&self, task: &Task, context: &SchedulingContext) -> (r: Score)
        requires
            work_fits(*task),
        ensures
            r == rule_score(Rule::Lpt, *task, *context),
    {
        Rule::Lpt.evaluate(task, context)
    }
}

/// Least Work Remaining: the remaining work.
#[derive(Debug, Clone, Copy)]
pub struct Lwkr;

impl Lwkr {
    /// This rule as a [`Rule`].
    pub fn rule(&self) -> (r: Rule)
        ensures
            r == Rule::Lwkr,
    {
        Rule::Lwkr
    }

    pub fn name(&self) -> &'static str {
        Rule::Lwkr.name()
    }

    pub fn description(&self) -> &'static str {
        Rule::Lwkr.description()
    }

    pub fn evaluate(&self, task: &Task, context: &SchedulingContext) -> (r: Score)
        requires
            work_fits(*task),
        ensures
            r == rule_score(Rule::Lwkr, *task, *context),
    {
        Rule::Lwkr.evaluate(task, context)
    }
}

/// Most Work Remaining: the remaining work, negated.
#[derive(Debug, Clone, Copy)]
pub struct Mwkr;

impl Mwkr {
    /// This rule as a [`Rule`].
    pub fn rule(&self) -> (r: Rule)
        ensures
            r == Rule::Mwkr,
    {
        Rule::Mwkr
    }

    pub fn name(&self) -> &'static str {
        Rule::Mwkr.name()
    }

    pub fn description(&self) -> &'static str {
        Rule::Mwkr.description()
    }

    pub fn evaluate(&self, task: &Task, context: &SchedulingContext) -> (r: Score)
        requires
            work_fits(*task),
        ensures
            r == rule_score(Rule::Mwkr, *task, *context),
    {
        Rule::Mwkr.evaluate(task, context)
    }
}

/// Weighted Shortest Processing Time: minus the weight `1000 / (priority + 1)` over the total duration.
#[derive(Debug, Clone, Copy)]
pub struct Wspt;

impl Wspt {
    /// This rule as a [`Rule`].
    pub fn rule(&self) -> (r: Rule)
        ensures
            r == Rule::Wspt,
    {
        Rule::Wspt
    }

    pub fn name(&self) -> &'static str {
        Rule::Wspt.name()
    }

    pub fn description(&self) -> &'static str {
        Rule::Wspt.description()
    }

    pub fn evaluate(&self, task: &Task, context: &SchedulingContext) -> (r: Score)
        requires
            work_fits(*task),
        ensures
            r == rule_score(Rule::Wspt, *task, *context),
    {
        Rule::Wspt.evaluate(task, context)
    }
}

/// Earliest Due Date: the deadline.
#[derive(Debug, Clone, Copy)]
pub struct Edd;

impl Edd {
    /// This rule as a [`Rule`].
    pub fn rule(&self) -> (r: Rule)
        ensures
            r == Rule::Edd,
    {
        Rule::Edd
    }

    pub fn name(&self) -> &'static str {
        Rule::Edd.name()
    }

    pub fn description(&self) -> &'static str {
        Rule::Edd.description()
    }

    pub fn evaluate(&self, task: &Task, context: &SchedulingContext) -> (r: Score)
        requires
            work_fits(*task),
        ensures
            r == rule_score(Rule::Edd, *task, *context),
    {
        Rule::Edd.evaluate(task, context)
    }
}

/// Minimum Slack Time: time to the deadline less the remaining work.
#[derive(Debug, Clone, Copy)]
pub struct Mst;

impl Mst {
    /// This rule as a [`Rule`].
    pub fn rule(&self) -> (r: Rule)
        ensures
            r == Rule::Mst,
    {
        Rule::Mst
    }

    pub fn name(&self) -> &'static str {
        Rule::Mst.name()
    }

    pub fn description(&self) -> &'static str {
        Rule::Mst.description()
    }

    pub fn evaluate(&self, task: &Task, context: &SchedulingContext) -> (r: Score)
        requires
            work_fits(*task),
        ensures
            r == rule_score(Rule::Mst, *task, *context),
    {
        Rule::Mst.evaluate(task, context)
    }
}

/// Critical Ratio: time to the deadline over the remaining work.
#[derive(Debug, Clone, Copy)]
pub struct Cr;

impl Cr {
    /// This rule as a [`Rule`].
    pub fn rule(&self) -> (r: Rule)
        ensures
            r == Rule::Cr,
    {
        Rule::Cr
    }

    pub fn name(&self) -> &'static str {
        Rule::Cr.name()
    }

    pub fn description(&self) -> &'static str {
        Rule::Cr.description()
    }

    pub fn evaluate(&self, task: &Task, context: &SchedulingContext) -> (r: Score)
        requires
            work_fits(*task),
        ensures
            r == rule_score(Rule::Cr, *task, *context),
    {
        Rule::Cr.evaluate(task, context)
    }
}

/// Slack per Remaining Operations: the slack over the number of activities.
#[derive(Debug, Clone, Copy)]
pub struct Sro;

impl Sro {
    /// This rule as a [`Rule`].
    pub fn rule(&self) -> (r: Rule)
        ensures
            r == Rule::Sro,
    {
        Rule::Sro
    }

    pub fn name(&self) -> &'static str {
        Rule::Sro.name()
    }

    pub fn description(&self) -> &'static str {
        Rule::Sro.description()
    }

    pub fn evaluate(&self, task: &Task, context: &SchedulingContext) -> (r: Score)
        requires
            work_fits(*task),
        ensures
            r == rule_score(Rule::Sro, *task, *context),
    {
        Rule::Sro.evaluate(task, context)
    }
}

/// First In First Out: the arrival time, else the release time, else 0.
#[derive(Debug, Clone, Copy)]
pub struct Fifo;

impl Fifo {
    /// This rule as a [`Rule`].
    pub fn rule(&self) -> (r: Rule)
        ensures
            r == Rule::Fifo,
    {
        Rule::Fifo
    }

    pub fn name(&self) -> &'static str {
        Rule::Fifo.name()
    }

    pub fn description(&self) -> &'static str {
        Rule::Fifo.description()
    }

    pub fn evaluate(&self, task: &Task, context: &SchedulingContext) -> (r: Score)
        requires
            work_fits(*task),
        ensures
            r == rule_score(Rule::Fifo, *task, *context),
    {
        Rule::Fifo.evaluate(task, context)
    }
}

/// Work In Next Queue: the queue length at the next operation.
#[derive(Debug, Clone, Copy)]
pub struct Winq;

impl Winq {
    /// This rule as a [`Rule`].
    pub fn rule(&self) -> (r: Rule)
        ensures
            r == Rule::Winq,
    {
        Rule::Winq
    }

    pub fn name(&self) -> &'static str {
        Rule::Winq.name()
    }

    pub fn description(&self) -> &'static str {
        Rule::Winq.description()
    }

    pub fn evaluate(&self, task: &Task, context: &SchedulingContext) -> (r: Score)
        requires
            work_fits(*task),
        ensures
            r == rule_score(Rule::Winq, *task, *context),
    {
        Rule::Winq.evaluate(task, context)
    }
}

/// Least Planned Utilization Level: the least load among the first activity's candidates.
#[derive(Debug, Clone, Copy)]
pub struct Lpul;

impl Lpul {
    /// This rule as a [`Rule`].
    pub fn rule(&self) -> (r: Rule)
        ensures
            r == Rule::Lpul,
    {
        Rule::Lpul
    }

    pub fn name(&self) -> &'static str {
        Rule::Lpul.name()
    }

    pub fn description(&self) -> &'static str {
        Rule::Lpul.description()
    }

    pub fn evaluate(&self, task: &Task, context: &SchedulingContext) -> (r: Score)
        requires
            work_fits(*task),
        ensures
            r == rule_score(Rule::Lpul, *task, *context),
    {
        Rule::Lpul.evaluate(task, context)
    }
}

/// Key of a score in comparisons: an infinite score is above every finite one.
pub open spec fn rank(s: Score) -> int {
    match s {
        Score::Finite(v) => v as int,
        Score::Infinite => SCORE_BOUND as int + 1,
    }
}

/// Time-based rules: of two tasks, SPT ranks the one of less total work
/// first and LPT the one of more; LWKR ranks the one of less remaining work
/// first and MWKR the one of more.
pub proof fn work_rules_order(a: Task, b: Task, ctx: SchedulingContext)
    requires
        work_fits(a),
        work_fits(b),
        i64::MIN <= work(a) <= i64::MAX,
        i64::MIN <= work(b) <= i64::MAX,
    ensures
        work(a) < work(b) ==> rank(rule_score(Rule::Spt, a, ctx)) < rank(rule_score(Rule::Spt, b, ctx)),
        work(a) > work(b) ==> rank(rule_score(Rule::Lpt, a, ctx)) < rank(rule_score(Rule::Lpt, b, ctx)),
        i64::MIN <= remaining(a, ctx) <= i64::MAX && i64::MIN <= remaining(b, ctx) <= i64::MAX ==> {
            &&& remaining(a, ctx) < remaining(b, ctx) ==> rank(rule_score(Rule::Lwkr, a, ctx)) < rank(rule_score(Rule::Lwkr, b, ctx))
            &&& remaining(a, ctx) > remaining(b, ctx) ==> rank(rule_score(Rule::Mwkr, a, ctx)) < rank(rule_score(Rule::Mwkr, b, ctx))
        },
{
}

/// WSPT: of two tasks with the same positive total work and non-negative
/// priorities, the one of lower priority (so higher weight) is ranked no
/// later.
pub proof fn wspt_order(a: Task, b: Task, ctx: SchedulingContext)
    requires
        work(a) == work(b),
        0 < work(a) <= i64::MAX,
        0 <= a.priority < b.priority,
    ensures
        rank(rule_score(Rule::Wspt, a, ctx)) <= rank(rule_score(Rule::Wspt, b, ctx)),
{
    let w = work(a);
    let da = (a.priority as int + 1) * w;
    let db = (b.priority as int + 1) * w;
    assert(0 < da <= db) by (nonlinear_arith)
        requires w > 0, 0 <= a.priority < b.priority, da == (a.priority as int + 1) * w, db == (b.priority as int + 1) * w;
    assert(floor_div(-1_000_000_000int, da) <= floor_div(-1_000_000_000int, db)) by (nonlinear_arith)
        requires 0 < da <= db;
    assert(-1_000_000_000int <= floor_div(-1_000_000_000int, da) <= 0) by (nonlinear_arith)
        requires 0 < da;
    assert(-1_000_000_000int <= floor_div(-1_000_000_000int, db) <= 0) by (nonlinear_arith)
        requires 0 < db;
}

/// Due-date rules: EDD ranks the earlier deadline first and a task without
/// deadline after one with; with equal remaining work, MST ranks the earlier
/// deadline first and CR and S/RO (the latter with equal activity counts)
/// rank it no later.
pub proof fn due_date_rules_order(a: Task, b: Task, ctx: SchedulingContext)
    requires
        remaining(a, ctx) == remaining(b, ctx),
        i64::MIN <= remaining(a, ctx) <= i64::MAX,
    ensures
        (a.deadline matches Some(da) && b.deadline matches Some(db) && da < db) ==> {
            &&& rank(rule_score(Rule::Edd, a, ctx)) < rank(rule_score(Rule::Edd, b, ctx))
            &&& rank(rule_score(Rule::Mst, a, ctx)) < rank(rule_score(Rule::Mst, b, ctx))
            &&& rank(rule_score(Rule::Cr, a, ctx)) <= rank(rule_score(Rule::Cr, b, ctx))
            &&& a.activities@.len() == b.activities@.len() ==> rank(rule_score(Rule::Sro, a, ctx)) <= rank(rule_score(Rule::Sro, b, ctx))
        },
        (a.deadline is Some && b.deadline is None) ==> rank(rule_score(Rule::Edd, a, ctx)) < rank(rule_score(Rule::Edd, b, ctx)),
{
    if a.deadline is Some && b.deadline is Some && a.deadline->0 < b.deadline->0 {
        let rem = remaining(a, ctx);
        let now = ctx.current_time as int;
        let na = (a.deadline->0 as int - now) * 1_000_000;
        let nb = (b.deadline->0 as int - now) * 1_000_000;
        if rem > 0 {
            assert(floor_div(na, rem) <= floor_div(nb, rem)) by (nonlinear_arith)
                requires na <= nb, rem > 0;
            assert(-abs_int(na) <= floor_div(na, rem) <= abs_int(na)) by (nonlinear_arith)
                requires rem >= 1;
            assert(-abs_int(nb) <= floor_div(nb, rem) <= abs_int(nb)) by (nonlinear_arith)
                requires rem >= 1;
        }
        let ops = if a.activities@.len() > 1 { a.activities@.len() as int } else { 1 };
        let sa = (a.deadline->0 as int - now - rem) * 1_000_000;
        let sb = (b.deadline->0 as int - now - rem) * 1_000_000;
        assert(floor_div(sa, ops) <= floor_div(sb, ops)) by (nonlinear_arith)
            requires sa <= sb, ops >= 1;
        assert(-abs_int(sa) <= floor_div(sa, ops) <= abs_int(sa)) by (nonlinear_arith)
            requires ops >= 1;
        assert(-abs_int(sb) <= floor_div(sb, ops) <= abs_int(sb)) by (nonlinear_arith)
            requires ops >= 1;
    }
}

/// Queue and load rules: FIFO ranks the earlier arrival first, WINQ the
/// shorter next queue, and LPUL the task whose first activity can use the
/// less loaded resource.
pub proof fn queue_rules_order(a: Task, b: Task, ctx: SchedulingContext)
    ensures
        (latest_value(ctx.arrival_times@, a.id@) matches Some(x) && latest_value(ctx.arrival_times@, b.id@) matches Some(y) && x < y)
            ==> rank(rule_score(Rule::Fifo, a, ctx)) < rank(rule_score(Rule::Fifo, b, ctx)),
        (latest_value(ctx.next_queue_length@, a.id@) matches Some(x) && latest_value(ctx.next_queue_length@, b.id@) matches Some(y) && x < y)
            ==> rank(rule_score(Rule::Winq, a, ctx)) < rank(rule_score(Rule::Winq, b, ctx)),
        (a.activities@.len() > 0 && b.activities@.len() > 0
            && (least_utilization(a.activities@[0].candidates(), ctx.resource_utilization@) matches Some(x)
            && least_utilization(b.activities@[0].candidates(), ctx.resource_utilization@) matches Some(y) && x < y))
            ==> rank(rule_score(Rule::Lpul, a, ctx)) < rank(rule_score(Rule::Lpul, b, ctx)),
{
}

/// The capability set of a dispatching rule: a stable name, a description
/// and a score for a task in a context. Every built-in rule has it.
pub trait DispatchingRule {
    fn name(&self) -> &'static str;

    fn description(&self) -> &'static str;

    fn evaluate(&self, task: &Task, context: &SchedulingContext) -> (r: Score)
        requires
            work_fits(*task),
        ensures
            bounded(r);
}

impl DispatchingRule for Rule {
    fn name(&self) -> &'static str {
        self.name()
    }

    fn description(&self) -> &'static str {
        self.description()
    }

    fn evaluate(&self, task: &Task, context: &SchedulingContext) -> (r: Score) {
        self.evaluate(task, context)
    }
}

impl DispatchingRule for Spt {
    fn name(&self) -> &'static str {
        Rule::Spt.name()
    }

    fn description(&self) -> &'static str {
        Rule::Spt.description()
    }

    fn evaluate(&self, task: &Task, context: &SchedulingContext) -> (r: Score) {
        Rule::Spt.evaluate(task, context)
    }
}

impl DispatchingRule for Lpt {
    fn name(&self) -> &'static str {
        Rule::Lpt.name()
    }

    fn description(&self) -> &'static str {
        Rule::Lpt.description()
    }

    fn evaluate(&self, task: &Task, context: &SchedulingContext) -> (r: Score) {
        Rule::Lpt.evaluate(task, context)
    }
}

impl DispatchingRule for Lwkr {
    fn name(&self) -> &'static str {
        Rule::Lwkr.name()
    }

    fn description(&self) -> &'static str {
        Rule::Lwkr.description()
    }

    fn evaluate(&self, task: &Task, context: &SchedulingContext) -> (r: Score) {
        Rule::Lwkr.evaluate(task, context)
    }
}

impl DispatchingRule for Mwkr {
    fn name(&self) -> &'static str {
        Rule::Mwkr.name()
    }

    fn description(&self) -> &'static str {
        Rule::Mwkr.description()
    }

    fn evaluate(&self, task: &Task, context: &SchedulingContext) -> (r: Score) {
        Rule::Mwkr.evaluate(task, context)
    }
}

impl DispatchingRule for Wspt {
    fn name(&self) -> &'static str {
        Rule::Wspt.name()
    }

    fn description(&self) -> &'static str {
        Rule::Wspt.description()
    }

    fn evaluate(&self, task: &Task, context: &SchedulingContext) -> (r: Score) {
        Rule::Wspt.evaluate(task, context)
    }
}

impl DispatchingRule for Edd {
    fn name(&self) -> &'static str {
        Rule::Edd.name()
    }

    fn description(&self) -> &'static str {
        Rule::Edd.description()
    }

    fn evaluate(&self, task: &Task, context: &SchedulingContext) -> (r: Score) {
        Rule::Edd.evaluate(task, context)
    }
}

impl DispatchingRule for Mst {
    fn name(&self) -> &'static str {
        Rule::Mst.name()
    }

    fn description(&self) -> &'static str {
        Rule::Mst.description()
    }

    fn evaluate(&self, task: &Task, context: &SchedulingContext) -> (r: Score) {
        Rule::Mst.evaluate(task, context)
    }
}

impl DispatchingRule for Cr {
    fn name(&self) -> &'static str {
        Rule::Cr.name()
    }

    fn description(&self) -> &'static str {
        Rule::Cr.description()
    }

    fn evaluate(&self, task: &Task, context: &SchedulingContext) -> (r: Score) {
        Rule::Cr.evaluate(task, context)
    }
}

impl DispatchingRule for Sro {
    fn name(&self) -> &'static str {
        Rule::Sro.name()
    }

    fn description(&self) -> &'static str {
        Rule::Sro.description()
    }

    fn evaluate(&self, task: &Task, context: &SchedulingContext) -> (r: Score) {
        Rule::Sro.evaluate(task, context)
    }
}

impl DispatchingRule for Fifo {
    fn name(&self) -> &'static str {
        Rule::Fifo.name()
    }

    fn description(&self) -> &'static str {
        Rule::Fifo.description()
    }

    fn evaluate(&self, task: &Task, context: &SchedulingContext) -> (r: Score) {
        Rule::Fifo.evaluate(task, context)
    }
}

impl DispatchingRule for Winq {
    fn name(&self) -> &'static str {
        Rule::Winq.name()
    }

    fn description(&self) -> &'static str {
        Rule::Winq.description()
    }

    fn evaluate(&self, task: &Task, context: &SchedulingContext) -> (r: Score) {
        Rule::Winq.evaluate(task, context)
    }
}

impl DispatchingRule for Lpul {
    fn name(&self) -> &'static str {
        Rule::Lpul.name()
    }

    fn description(&self) -> &'static str {
        Rule::Lpul.description()
    }

    fn evaluate(&self, task: &Task, context: &SchedulingContext) -> (r: Score) {
        Rule::Lpul.evaluate(task, context)
    }
}

} // verus!

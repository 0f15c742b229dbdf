//! Time-window kinds, violation severities and three-point duration estimates.
use vstd::prelude::*;
use vstd::string::StringExecFns;

verus! {

/// Whether a time window must hold or only should.
#[derive(Debug, Clone, Copy, PartialEq, Eq)]
pub enum TimeWindowType {
    /// The schedule is invalid when it is broken.
    Hard,
    /// Breaking it costs a penalty.
    Soft,
}

impl Default for TimeWindowType {
    fn default() -> (r: Self)
        ensures
            r == TimeWindowType::Soft,
    {
        TimeWindowType::Soft
    }
}

/// How serious a violation is, from least to most.
#[derive(Debug, Clone, Copy, PartialEq, Eq, PartialOrd, Ord, Hash)]
pub enum ViolationSeverity {
    Info,
    Minor,
    Major,
    Critical,
}

impl ViolationSeverity {
    /// Position of the severity, from 0 for `Info` to 3 for `Critical`.
    pub open spec fn level(&self) -> int {
        match self {
            ViolationSeverity::Info => 0,
            ViolationSeverity::Minor => 1,
            ViolationSeverity::Major => 2,
            ViolationSeverity::Critical => 3,
        }
    }

    pub fn rank(&self) -> (r: u8)
        ensures
            r == self.level(),
    {
        match self {
            ViolationSeverity::Info => 0,
            ViolationSeverity::Minor => 1,
            ViolationSeverity::Major => 2,
            ViolationSeverity::Critical => 3,
        }
    }
}

/// Kinds of broken constraint.
#[derive(Debug, Clone, PartialEq, Eq)]
pub enum ViolationType {
    TimeWindow,
    CapacityExceeded,
    PrecedenceViolated,
    ResourceUnavailable,
    SkillMismatch,
    CertificationExpired,
    MaterialShortage,
    Custom(String),
}

/// Optimistic, most likely and pessimistic durations, in milliseconds.
#[derive(Debug, Clone, Copy, PartialEq, Eq)]
pub struct PertEstimate {
    pub optimistic_ms: i64,
    pub most_likely_ms: i64,
    pub pessimistic_ms: i64,
}

/// `a / b` rounded toward zero, for positive `b`.
pub open spec fn div_toward_zero(a: int, b: int) -> int {
    if a >= 0 { a / b } else { -((-a) / b) }
}

impl PertEstimate {
    pub fn new(optimistic_ms: i64, most_likely_ms: i64, pessimistic_ms: i64) -> (r: Self)
        ensures
            r == (PertEstimate { optimistic_ms, most_likely_ms, pessimistic_ms }),
    {
        PertEstimate { optimistic_ms, most_likely_ms, pessimistic_ms }
    }

    /// An estimate `spread_ms` either side of the most likely duration.
    pub fn symmetric(most_likely_ms: i64, spread_ms: i64) -> (r: Self)
        requires
            i64::MIN <= most_likely_ms - spread_ms <= i64::MAX,
            i64::MIN <= most_likely_ms + spread_ms <= i64::MAX,
        ensures
            r.optimistic_ms == most_likely_ms - spread_ms,
            r.most_likely_ms == most_likely_ms,
            r.pessimistic_ms == most_likely_ms + spread_ms,
    {
        PertEstimate {
            optimistic_ms: most_likely_ms - spread_ms,
            most_likely_ms,
            pessimistic_ms: most_likely_ms + spread_ms,
        }
    }

    /// The PERT mean `(O + 4M + P) / 6`, rounded toward zero.
    pub fn p50(&self) -> (r: i64)
        ensures
            r == div_toward_zero(self.optimistic_ms + 4 * self.most_likely_ms + self.pessimistic_ms, 6),
    {
        let sum: i128 = self.optimistic_ms as i128 + 4 * self.most_likely_ms as i128 + self.pessimistic_ms as i128;
        if sum >= 0 {
            (sum / 6) as i64
        } else {
            (-((-sum) / 6)) as i64
        }
    }
}

impl Default for PertEstimate {
    fn default() -> (r: Self)
        ensures
            r == (PertEstimate { optimistic_ms: 0, most_likely_ms: 0, pessimistic_ms: 0 }),
    {
        PertEstimate { optimistic_ms: 0, most_likely_ms: 0, pessimistic_ms: 0 }
    }
}

/// Bounds on when an activity starts and ends. The penalty rate is in
/// thousandths per millisecond of violation (1000 stands for 1.0).
#[derive(Debug, Clone, Copy, PartialEq, Eq)]
pub struct TimeWindow {
    pub earliest_start_ms: Option<i64>,
    pub latest_start_ms: Option<i64>,
    pub earliest_end_ms: Option<i64>,
    pub latest_end_ms: Option<i64>,
    pub window_type: TimeWindowType,
    pub penalty_per_ms: i32,
}

/// How far an interval falls outside a time window.
#[derive(Debug, Clone, Copy, PartialEq, Eq)]
pub struct TimeWindowViolation {
    /// Milliseconds before the earliest bounds.
    pub early_ms: i128,
    /// Milliseconds after the latest bounds.
    pub late_ms: i128,
    pub severity: ViolationSeverity,
    /// Violated milliseconds times the rate, in thousandths.
    pub penalty: i128,
}

/// How far `x` lies below the bound, if there is one.
pub open spec fn below(bound: Option<i64>, x: i64) -> int {
    match bound {
        Some(b) => if x < b { b - x } else { 0 },
        None => 0,
    }
}

/// How far `x` lies above the bound, if there is one.
pub open spec fn above(bound: Option<i64>, x: i64) -> int {
    match bound {
        Some(b) => if x > b { x - b } else { 0 },
        None => 0,
    }
}

fn shortfall(bound: Option<i64>, x: i64) -> (r: i128)
    ensures
        r == below(bound, x),
{
    match bound {
        Some(b) => if x < b { b as i128 - x as i128 } else { 0 },
        None => 0,
    }
}

fn excess(bound: Option<i64>, x: i64) -> (r: i128)
    ensures
        r == above(bound, x),
{
    match bound {
        Some(b) => if x > b { x as i128 - b as i128 } else { 0 },
        None => 0,
    }
}

impl TimeWindow {
    /// Time too early for an interval `[start, end]`.
    pub open spec fn early(&self, start: i64, end: i64) -> int {
        below(self.earliest_start_ms, start) + below(self.earliest_end_ms, end)
    }

    /// Time too late for an interval `[start, end]`.
    pub open spec fn late(&self, start: i64, end: i64) -> int {
        above(self.latest_start_ms, start) + above(self.latest_end_ms, end)
    }

    /// A soft window without bounds and a rate of 1.
    pub fn new() -> (r: Self)
        ensures
            r == (TimeWindow {
                earliest_start_ms: None,
                latest_start_ms: None,
                earliest_end_ms: None,
                latest_end_ms: None,
                window_type: TimeWindowType::Soft,
                penalty_per_ms: 1000,
            }),
    {
        TimeWindow {
            earliest_start_ms: None,
            latest_start_ms: None,
            earliest_end_ms: None,
            latest_end_ms: None,
            window_type: TimeWindowType::Soft,
            penalty_per_ms: 1000,
        }
    }

    /// A soft window from an earliest start to a latest end.
    pub fn bounded(start_ms: i64, end_ms: i64) -> (r: Self)
        ensures
            r == (TimeWindow { earliest_start_ms: Some(start_ms), latest_end_ms: Some(end_ms), ..TimeWindow::new_spec() }),
    {
        TimeWindow { earliest_start_ms: Some(start_ms), latest_end_ms: Some(end_ms), ..TimeWindow::new() }
    }

    /// A hard latest end.
    pub fn deadline(deadline_ms: i64) -> (r: Self)
        ensures
            r == (TimeWindow {
                latest_end_ms: Some(deadline_ms),
                window_type: TimeWindowType::Hard,
                penalty_per_ms: 0,
                ..TimeWindow::new_spec()
            }),
    {
        TimeWindow { latest_end_ms: Some(deadline_ms), window_type: TimeWindowType::Hard, penalty_per_ms: 0, ..TimeWindow::new() }
    }

    /// A hard earliest start.
    pub fn release(release_ms: i64) -> (r: Self)
        ensures
            r == (TimeWindow {
                earliest_start_ms: Some(release_ms),
                window_type: TimeWindowType::Hard,
                penalty_per_ms: 0,
                ..TimeWindow::new_spec()
            }),
    {
        TimeWindow { earliest_start_ms: Some(release_ms), window_type: TimeWindowType::Hard, penalty_per_ms: 0, ..TimeWindow::new() }
    }

    pub open spec fn new_spec() -> TimeWindow {
        TimeWindow {
            earliest_start_ms: None,
            latest_start_ms: None,
            earliest_end_ms: None,
            latest_end_ms: None,
            window_type: TimeWindowType::Soft,
            penalty_per_ms: 1000,
        }
    }

    pub fn hard(self) -> (r: Self)
        ensures
            r == (TimeWindow { window_type: TimeWindowType::Hard, penalty_per_ms: 0, ..self }),
    {
        TimeWindow { window_type: TimeWindowType::Hard, penalty_per_ms: 0, ..self }
    }

    /// A soft window with the given rate, in thousandths per millisecond.
    pub fn soft(self, penalty_per_ms: i32) -> (r: Self)
        ensures
            r == (TimeWindow { window_type: TimeWindowType::Soft, penalty_per_ms, ..self }),
    {
        TimeWindow { window_type: TimeWindowType::Soft, penalty_per_ms, ..self }
    }

    pub fn with_earliest_start(self, ms: i64) -> (r: Self)
        ensures
            r == (TimeWindow { earliest_start_ms: Some(ms), ..self }),
    {
        TimeWindow { earliest_start_ms: Some(ms), ..self }
    }

    pub fn with_latest_start(self, ms: i64) -> (r: Self)
        ensures
            r == (TimeWindow { latest_start_ms: Some(ms), ..self }),
    {
        TimeWindow { latest_start_ms: Some(ms), ..self }
    }

    pub fn with_due_date(self, ms: i64) -> (r: Self)
        ensures
            r == (TimeWindow { latest_end_ms: Some(ms), ..self }),
    {
        TimeWindow { latest_end_ms: Some(ms), ..self }
    }

    /// The violation of the window by `[start_ms, end_ms]`, if any: critical
    /// for a hard window, minor for a soft one.
    pub fn check_violation(&self, start_ms: i64, end_ms: i64) -> (r: Option<TimeWindowViolation>)
        ensures
            r is None <==> (self.early(start_ms, end_ms) == 0 && self.late(start_ms, end_ms) == 0),
            r matches Some(v) ==> {
                &&& v.early_ms == self.early(start_ms, end_ms)
                &&& v.late_ms == self.late(start_ms, end_ms)
                &&& v.severity == (if self.window_type == TimeWindowType::Hard {
                    ViolationSeverity::Critical
                } else {
                    ViolationSeverity::Minor
                })
                &&& v.penalty == (self.early(start_ms, end_ms) + self.late(start_ms, end_ms)) * self.penalty_per_ms
            },
    {
        let early = shortfall(self.earliest_start_ms, start_ms) + shortfall(self.earliest_end_ms, end_ms);
        let late = excess(self.latest_start_ms, start_ms) + excess(self.latest_end_ms, end_ms);
        if early == 0 && late == 0 {
            return None;
        }
        let severity = match self.window_type {
            TimeWindowType::Hard => ViolationSeverity::Critical,
            TimeWindowType::Soft => ViolationSeverity::Minor,
        };
        proof {
            let t = (early + late) as int;
            let p = self.penalty_per_ms as int;
            assert(-0x8000_0000_0000_0000_0000_0000_0000int <= t * p <= 0x8000_0000_0000_0000_0000_0000_0000int) by (nonlinear_arith)
                requires 0 <= t <= 0x4_0000_0000_0000_0000int, -0x8000_0000int <= p <= 0x8000_0000int;
        }
        let penalty = (early + late) * self.penalty_per_ms as i128;
        Some(TimeWindowViolation { early_ms: early, late_ms: late, severity, penalty })
    }
}

impl Default for TimeWindow {
    fn default() -> (r: Self)
        ensures
            r == TimeWindow::new_spec(),
    {
        TimeWindow::new()
    }
}

impl TimeWindowViolation {
    pub fn total_violation_ms(&self) -> (r: i128)
        requires
            -0x4000_0000_0000_0000_0000_0000_0000_0000 < self.early_ms < 0x4000_0000_0000_0000_0000_0000_0000_0000,
            -0x4000_0000_0000_0000_0000_0000_0000_0000 < self.late_ms < 0x4000_0000_0000_0000_0000_0000_0000_0000,
        ensures
            r == (if self.early_ms < 0 { -self.early_ms } else { self.early_ms as int })
                + (if self.late_ms < 0 { -self.late_ms } else { self.late_ms as int }),
    {
        let e = if self.early_ms < 0 { -self.early_ms } else { self.early_ms };
        let l = if self.late_ms < 0 { -self.late_ms } else { self.late_ms };
        e + l
    }

    pub fn is_tardy(&self) -> (r: bool)
        ensures
            r == (self.late_ms > 0),
    {
        self.late_ms > 0
    }

    pub fn is_early(&self) -> (r: bool)
        ensures
            r == (self.early_ms > 0),
    {
        self.early_ms > 0
    }
}

/// The decimal digits of a natural number, most significant first.
pub open spec fn digits(n: nat) -> Seq<char>
    decreases n,
{
    let d = seq!['0', '1', '2', '3', '4', '5', '6', '7', '8', '9'];
    if n < 10 {
        seq![d[n as int]]
    } else {
        digits(n / 10).push(d[(n % 10) as int])
    }
}

/// The decimal text of an integer, with a minus sign when negative.
pub open spec fn decimal_text(n: int) -> Seq<char> {
    if n < 0 {
        seq!['-'] + digits((-n) as nat)
    } else {
        digits(n as nat)
    }
}

/// The decimal digit `d` as a one-character text.
fn digit_text(d: u64) -> (r: &'static str)
    requires
        d < 10,
    ensures
        r@ == seq![seq!['0', '1', '2', '3', '4', '5', '6', '7', '8', '9'][d as int]],
{
    proof {
        reveal_strlit("0");
        reveal_strlit("1");
        reveal_strlit("2");
        reveal_strlit("3");
        reveal_strlit("4");
        reveal_strlit("5");
        reveal_strlit("6");
        reveal_strlit("7");
        reveal_strlit("8");
        reveal_strlit("9");
    }
    match d {
        0 => "0",
        1 => "1",
        2 => "2",
        3 => "3",
        4 => "4",
        5 => "5",
        6 => "6",
        7 => "7",
        8 => "8",
        _ => "9",
    }
}

/// The decimal text of an integer.
fn decimal(n: i64) -> (r: String)
    ensures
        r@ == decimal_text(n as int),
{
    let neg = n < 0;
    let m0: u64 = if neg { (-(n as i128)) as u64 } else { n as u64 };
    let mut m = m0;
    let mut high: Vec<u64> = Vec::new();
    let ghost table = seq!['0', '1', '2', '3', '4', '5', '6', '7', '8', '9'];
    while m >= 10
        invariant
            digits(m0 as nat) == digits(m as nat) + high@.map_values(|d: u64| table[d as int]),
            forall|k: int| 0 <= k < high@.len() ==> #[trigger] high@[k] < 10,
            table == seq!['0', '1', '2', '3', '4', '5', '6', '7', '8', '9'],
        decreases m,
    {
        let d = m % 10;
        let ghost old_high = high@;
        high.insert(0, d);
        proof {
            assert(digits(m as nat) == digits((m / 10) as nat).push(table[d as int]));
            assert(high@.map_values(|x: u64| table[x as int])
                =~= seq![table[d as int]] + old_high.map_values(|x: u64| table[x as int]));
            assert(digits(m as nat) + old_high.map_values(|x: u64| table[x as int])
                =~= digits((m / 10) as nat) + high@.map_values(|x: u64| table[x as int]));
        }
        m = m / 10;
    }
    let mut r = if neg { "-".to_owned() } else { String::new() };
    proof {
        reveal_strlit("-");
        assert(r@ == (if neg { seq!['-'] } else { Seq::<char>::empty() }));
    }
    let ghost head = r@;
    r.append(digit_text(m));
    let mut k: usize = 0;
    while k < high.len()
        invariant
            k <= high@.len(),
            forall|x: int| 0 <= x < high@.len() ==> #[trigger] high@[x] < 10,
            table == seq!['0', '1', '2', '3', '4', '5', '6', '7', '8', '9'],
            r@ == head + digits(m as nat) + high@.subrange(0, k as int).map_values(|d: u64| table[d as int]),
        decreases high@.len() - k,
    {
        let t = digit_text(high[k]);
        r.append(t);
        proof {
            assert(high@.subrange(0, k + 1).map_values(|d: u64| table[d as int])
                =~= high@.subrange(0, k as int).map_values(|d: u64| table[d as int]).push(table[high@[k as int] as int]));
        }
        k += 1;
    }
    proof {
        assert(high@.subrange(0, k as int) =~= high@);
        if neg {
            assert((-(n as int)) as nat == m0 as nat);
        }
    }
    r
}

/// A broken constraint with its cost, in thousandths.
#[derive(Debug, Clone)]
pub struct ConstraintViolation {
    pub violation_type: ViolationType,
    pub related_ids: Vec<String>,
    pub severity: ViolationSeverity,
    pub message: String,
    pub penalty: i128,
}

impl ConstraintViolation {
    /// An activity finishing `tardiness_ms` late.
    pub fn time_window(activity_id: &str, tardiness_ms: i64, severity: ViolationSeverity, penalty: i64) -> (r: Self)
        ensures
            r.violation_type == ViolationType::TimeWindow,
            r.related_ids@.len() == 1 && r.related_ids@[0]@ == activity_id@,
            r.severity == severity,
            r.message@ == "Activity "@ + activity_id@ + " is "@ + decimal_text(tardiness_ms as int) + " ms late"@,
            r.penalty == penalty,
    {
        let mut m = "Activity ".to_owned();
        m.append(activity_id);
        m.append(" is ");
        let d = decimal(tardiness_ms);
        m.append(d.as_str());
        m.append(" ms late");
        let mut ids: Vec<String> = Vec::new();
        ids.push(activity_id.to_owned());
        ConstraintViolation { violation_type: ViolationType::TimeWindow, related_ids: ids, severity, message: m, penalty: penalty as i128 }
    }

    /// A resource over capacity by `exceeded_by`, at 1000 per unit.
    pub fn capacity_exceeded(resource_id: &str, exceeded_by: i32) -> (r: Self)
        ensures
            r.violation_type == ViolationType::CapacityExceeded,
            r.related_ids@.len() == 1 && r.related_ids@[0]@ == resource_id@,
            r.severity == ViolationSeverity::Critical,
            r.message@ == "Resource "@ + resource_id@ + " capacity exceeded by "@ + decimal_text(exceeded_by as int),
            r.penalty == exceeded_by as int * 1_000_000,
    {
        let mut m = "Resource ".to_owned();
        m.append(resource_id);
        m.append(" capacity exceeded by ");
        let d = decimal(exceeded_by as i64);
        m.append(d.as_str());
        let mut ids: Vec<String> = Vec::new();
        ids.push(resource_id.to_owned());
        ConstraintViolation {
            violation_type: ViolationType::CapacityExceeded,
            related_ids: ids,
            severity: ViolationSeverity::Critical,
            message: m,
            penalty: exceeded_by as i128 * 1_000_000,
        }
    }

    /// Two activities overlapping by `overlap_ms` against their order, at
    /// 10 per millisecond.
    pub fn precedence_violated(before_id: &str, after_id: &str, overlap_ms: i64) -> (r: Self)
        ensures
            r.violation_type == ViolationType::PrecedenceViolated,
            r.related_ids@.len() == 2 && r.related_ids@[0]@ == before_id@ && r.related_ids@[1]@ == after_id@,
            r.severity == ViolationSeverity::Critical,
            r.message@ == "Activity "@ + before_id@ + " must complete before "@ + after_id@ + " (overlap: "@
                + decimal_text(overlap_ms as int) + " ms)"@,
            r.penalty == overlap_ms as int * 10_000,
    {
        let mut m = "Activity ".to_owned();
        m.append(before_id);
        m.append(" must complete before ");
        m.append(after_id);
        m.append(" (overlap: ");
        let d = decimal(overlap_ms);
        m.append(d.as_str());
        m.append(" ms)");
        let mut ids: Vec<String> = Vec::new();
        ids.push(before_id.to_owned());
        ids.push(after_id.to_owned());
        ConstraintViolation {
            violation_type: ViolationType::PrecedenceViolated,
            related_ids: ids,
            severity: ViolationSeverity::Critical,
            message: m,
            penalty: overlap_ms as i128 * 10_000,
        }
    }
}

} // verus!

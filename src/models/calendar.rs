//! Calendars: when a resource can work.
use vstd::prelude::*;

verus! {

/// The half-open interval `[start_ms, end_ms)` of epoch milliseconds.
#[derive(Debug, Clone, Copy, PartialEq, Eq)]
pub struct TimeWindow {
    pub start_ms: i64,
    pub end_ms: i64,
}

impl TimeWindow {
    pub open spec fn holds(&self, t: int) -> bool {
        self.start_ms <= t < self.end_ms
    }

    pub fn new(start_ms: i64, end_ms: i64) -> (r: Self)
        ensures
            r.start_ms == start_ms,
            r.end_ms == end_ms,
    {
        TimeWindow { start_ms, end_ms }
    }

    pub fn duration_ms(&self) -> (r: i64)
        requires
            i64::MIN <= self.end_ms - self.start_ms <= i64::MAX,
        ensures
            r == self.end_ms - self.start_ms,
    {
        self.end_ms - self.start_ms
    }

    pub fn contains(&self, timestamp_ms: i64) -> (r: bool)
        ensures
            r == self.holds(timestamp_ms as int),
    {
        timestamp_ms >= self.start_ms && timestamp_ms < self.end_ms
    }

    /// Whether the two windows share an instant (both taken as non-empty).
    pub fn overlaps(&self, other: &TimeWindow) -> (r: bool)
        ensures
            r == (self.start_ms < other.end_ms && self.end_ms > other.start_ms),
    {
        self.start_ms < other.end_ms && self.end_ms > other.start_ms
    }
}

/// Whether some window of the list holds `t`.
pub open spec fn in_some(w: Seq<TimeWindow>, t: int) -> bool {
    exists|i: int| 0 <= i < w.len() && #[trigger] w[i].holds(t)
}

/// Length of the part of `[s, e)` that a window covers.
pub open spec fn overlap_len(w: TimeWindow, s: int, e: int) -> int {
    if w.start_ms < e && w.end_ms > s {
        (if w.end_ms < e { w.end_ms as int } else { e }) - (if w.start_ms > s { w.start_ms as int } else { s })
    } else {
        0
    }
}

/// Sum of the overlaps of a list of windows with `[s, e)`.
pub open spec fn overlap_sum(w: Seq<TimeWindow>, s: int, e: int) -> int
    decreases w.len(),
{
    if w.len() == 0 {
        0
    } else {
        overlap_sum(w.drop_last(), s, e) + overlap_len(w.last(), s, e)
    }
}

/// Working windows minus blocked periods.
#[derive(Debug, Clone)]
pub struct Calendar {
    pub id: String,
    pub time_windows: Vec<TimeWindow>,
    /// Holidays, maintenance and other periods without work.
    pub blocked_periods: Vec<TimeWindow>,
}

impl Calendar {
    /// An instant is working when a window holds it and no blocked period does.
    pub open spec fn working(&self, t: int) -> bool {
        in_some(self.time_windows@, t) && !in_some(self.blocked_periods@, t)
    }

    /// The instants where working time may begin after `from`: `from`
    /// itself, a window start, or the end of a blocked period.
    pub open spec fn may_begin(&self, from: int, c: int) -> bool {
        c == from || (exists|i: int| 0 <= i < self.time_windows@.len() && #[trigger] self.time_windows@[i].start_ms == c)
            || (exists|j: int| 0 <= j < self.blocked_periods@.len() && #[trigger] self.blocked_periods@[j].end_ms == c)
    }

    pub fn new(id: &str) -> (r: Self)
        ensures
            r.id@ == id@,
            r.time_windows@.len() == 0,
            r.blocked_periods@.len() == 0,
    {
        Calendar { id: id.to_owned(), time_windows: Vec::new(), blocked_periods: Vec::new() }
    }

    /// A calendar with one window from 0 to the end of time.
    pub fn always_available(id: &str) -> (r: Self)
        ensures
            r.id@ == id@,
            r.time_windows@ == seq![TimeWindow { start_ms: 0, end_ms: i64::MAX }],
            r.blocked_periods@.len() == 0,
    {
        let mut w: Vec<TimeWindow> = Vec::new();
        w.push(TimeWindow::new(0, i64::MAX));
        proof {
            assert(w@ =~= seq![TimeWindow { start_ms: 0, end_ms: i64::MAX }]);
        }
        Calendar { id: id.to_owned(), time_windows: w, blocked_periods: Vec::new() }
    }

    pub fn with_window(self, start_ms: i64, end_ms: i64) -> (r: Self)
        ensures
            r.id == self.id,
            r.time_windows@ == self.time_windows@.push(TimeWindow { start_ms, end_ms }),
            r.blocked_periods == self.blocked_periods,
    {
        let mut s = self;
        s.time_windows.push(TimeWindow::new(start_ms, end_ms));
        s
    }

    pub fn with_blocked(self, start_ms: i64, end_ms: i64) -> (r: Self)
        ensures
            r.id == self.id,
            r.time_windows == self.time_windows,
            r.blocked_periods@ == self.blocked_periods@.push(TimeWindow { start_ms, end_ms }),
    {
        let mut s = self;
        s.blocked_periods.push(TimeWindow::new(start_ms, end_ms));
        s
    }

    pub fn is_working_time(&self, timestamp_ms: i64) -> (r: bool)
        ensures
            r == self.working(timestamp_ms as int),
    {
        let t = timestamp_ms;
        let in_window = any_holds(&self.time_windows, t);
        let blocked = any_holds(&self.blocked_periods, t);
        in_window && !blocked
    }

    /// The earliest working instant at or after `from_ms`; `from_ms` itself
    /// when no instant from there on is working.
    pub fn next_available_time(&self, from_ms: i64) -> (r: i64)
        ensures
            r >= from_ms,
            (exists|x: int| x >= from_ms && #[trigger] self.working(x)) ==> self.working(r as int)
                && forall|y: int| from_ms <= y < r ==> !#[trigger] self.working(y),
            !(exists|x: int| x >= from_ms && #[trigger] self.working(x)) ==> r == from_ms,
    {
        if self.is_working_time(from_ms) {
            return from_ms;
        }
        let mut best: Option<i64> = None;
        let mut i: usize = 0;
        while i < self.time_windows.len()
            invariant
                i <= self.time_windows@.len(),
                !self.working(from_ms as int),
                best matches Some(b) ==> b > from_ms && self.working(b as int) && self.may_begin(from_ms as int, b as int),
                forall|k: int| 0 <= k < i && self.time_windows@[k].start_ms > from_ms
                    && self.working(self.time_windows@[k].start_ms as int)
                    ==> (best matches Some(b) && b <= #[trigger] self.time_windows@[k].start_ms),
            decreases self.time_windows@.len() - i,
        {
            let c = self.time_windows[i].start_ms;
            if c > from_ms && self.is_working_time(c) {
                let better = match best {
                    None => true,
                    Some(b) => c < b,
                };
                if better {
                    best = Some(c);
                }
            }
            i += 1;
        }
        let mut j: usize = 0;
        while j < self.blocked_periods.len()
            invariant
                j <= self.blocked_periods@.len(),
                !self.working(from_ms as int),
                best matches Some(b) ==> b > from_ms && self.working(b as int) && self.may_begin(from_ms as int, b as int),
                forall|k: int| 0 <= k < self.time_windows@.len() && self.time_windows@[k].start_ms > from_ms
                    && self.working(self.time_windows@[k].start_ms as int)
                    ==> (best matches Some(b) && b <= #[trigger] self.time_windows@[k].start_ms),
                forall|k: int| 0 <= k < j && self.blocked_periods@[k].end_ms > from_ms
                    && self.working(self.blocked_periods@[k].end_ms as int)
                    ==> (best matches Some(b) && b <= #[trigger] self.blocked_periods@[k].end_ms),
            decreases self.blocked_periods@.len() - j,
        {
            let c = self.blocked_periods[j].end_ms;
            if c > from_ms && self.is_working_time(c) {
                let better = match best {
                    None => true,
                    Some(b) => c < b,
                };
                if better {
                    best = Some(c);
                }
            }
            j += 1;
        }
        match best {
            Some(b) => {
                proof {
                    assert forall|y: int| from_ms <= y < b implies !#[trigger] self.working(y) by {
                        if self.working(y) {
                            self.lemma_working_has_start(from_ms as int, y);
                        }
                    }
                }
                b
            },
            None => {
                proof {
                    if exists|x: int| x >= from_ms && #[trigger] self.working(x) {
                        let x = choose|x: int| x >= from_ms && #[trigger] self.working(x);
                        self.lemma_working_has_start(from_ms as int, x);
                    }
                }
                from_ms
            },
        }
    }

    /// Every working instant `x` at or after `from` is preceded, from `from`
    /// on, by a working instant where working time may begin.
    proof fn lemma_working_has_start(&self, from: int, x: int)
        requires
            x >= from,
            self.working(x),
        ensures
            exists|c: int| from <= c <= x && self.working(c) && #[trigger] self.may_begin(from, c),
        decreases x - from,
    {
        if x == from {
            assert(self.may_begin(from, x));
        } else {
            let i = choose|i: int| 0 <= i < self.time_windows@.len() && #[trigger] self.time_windows@[i].holds(x);
            let w = self.time_windows@[i];
            if w.start_ms == x {
                assert(self.may_begin(from, x));
            } else {
                assert(w.holds(x - 1));
                if in_some(self.blocked_periods@, x - 1) {
                    let j = choose|j: int| 0 <= j < self.blocked_periods@.len() && #[trigger] self.blocked_periods@[j].holds(x - 1);
                    assert(!self.blocked_periods@[j].holds(x));
                    assert(self.blocked_periods@[j].end_ms == x);
                    assert(self.may_begin(from, x));
                } else {
                    assert(self.working(x - 1));
                    self.lemma_working_has_start(from, x - 1);
                }
            }
        }
    }

    /// Length of working windows inside `[start_ms, end_ms)`, blocked periods
    /// not deducted; the whole length when the calendar has no window.
    pub fn available_time_between(&self, start_ms: i64, end_ms: i64) -> (r: i64)
        requires
            i64::MIN <= end_ms - start_ms <= i64::MAX,
            forall|k: int| 0 <= k <= self.time_windows@.len()
                ==> i64::MIN <= #[trigger] overlap_sum(self.time_windows@.subrange(0, k), start_ms as int, end_ms as int) <= i64::MAX,
        ensures
            self.time_windows@.len() == 0 ==> r == end_ms - start_ms,
            self.time_windows@.len() > 0 ==> r == overlap_sum(self.time_windows@, start_ms as int, end_ms as int),
    {
        if self.time_windows.len() == 0 {
            return end_ms - start_ms;
        }
        let span = TimeWindow::new(start_ms, end_ms);
        let mut sum: i64 = 0;
        let mut i: usize = 0;
        while i < self.time_windows.len()
            invariant
                i <= self.time_windows@.len(),
                span.start_ms == start_ms && span.end_ms == end_ms,
                sum == overlap_sum(self.time_windows@.subrange(0, i as int), start_ms as int, end_ms as int),
                forall|k: int| 0 <= k <= self.time_windows@.len()
                    ==> i64::MIN <= #[trigger] overlap_sum(self.time_windows@.subrange(0, k), start_ms as int, end_ms as int) <= i64::MAX,
            decreases self.time_windows@.len() - i,
        {
            let w = self.time_windows[i];
            proof {
                assert(self.time_windows@.subrange(0, i + 1).drop_last() =~= self.time_windows@.subrange(0, i as int));
                assert(overlap_sum(self.time_windows@.subrange(0, i + 1), start_ms as int, end_ms as int) <= i64::MAX);
            }
            if w.overlaps(&span) {
                let lo = if w.start_ms > start_ms { w.start_ms } else { start_ms };
                let hi = if w.end_ms < end_ms { w.end_ms } else { end_ms };
                sum = (sum as i128 + (hi as i128 - lo as i128)) as i64;
            }
            i += 1;
        }
        proof {
            assert(self.time_windows@.subrange(0, i as int) =~= self.time_windows@);
        }
        sum
    }
}

/// Whether some window of the list holds `t`.
fn any_holds(w: &Vec<TimeWindow>, t: i64) -> (r: bool)
    ensures
        r == in_some(w@, t as int),
{
    let mut i: usize = 0;
    while i < w.len()
        invariant
            i <= w@.len(),
            forall|k: int| 0 <= k < i ==> !(#[trigger] w@[k]).holds(t as int),
        decreases w@.len() - i,
    {
        if w[i].contains(t) {
            return true;
        }
        i += 1;
    }
    false
}

} // verus!

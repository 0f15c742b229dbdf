//! The rule engine: orders tasks by a list of weighted rules.
use vstd::prelude::*;
use crate::dispatching::context::SchedulingContext;
use crate::dispatching::rules::{Rule, Score, bounded, rule_score, work_fits, rank};
use crate::models::task::Task;

verus! {

/// Most rules an engine holds: weighted sums of that many scores are exact in
/// 128 bits.
pub const MAX_RULES: usize = 256;

/// Key component standing for an infinite score; above every finite key.
pub const INFINITE_KEY: i128 = 0x4000_0000_0000_0000_0000_0000_0000_0000;

/// Weight scale: a weight of 1_000_000 stands for 1.0.
pub const WEIGHT_SCALE: i128 = 1_000_000;

/// How several rules combine.
#[derive(Debug, Clone, Copy, PartialEq, Eq)]
pub enum EvaluationMode {
    /// Compare by the first rule, then the next on ties, and so on.
    Sequential,
    /// Compare by the weighted sum of the scores.
    Weighted,
}

/// How ties left by all rules are broken.
#[derive(Debug, Clone, Copy, PartialEq, Eq)]
pub enum TieBreaker {
    /// Keep the input order.
    NextRule,
    /// By the sum of the bytes of the task id: arbitrary but reproducible.
    Random,
    /// By task id, compared byte by byte.
    ById,
}

impl Default for EvaluationMode {
    fn default() -> (r: Self)
        ensures
            r == EvaluationMode::Sequential,
    {
        EvaluationMode::Sequential
    }
}

impl Default for TieBreaker {
    fn default() -> (r: Self)
        ensures
            r == TieBreaker::NextRule,
    {
        TieBreaker::NextRule
    }
}

/// A rule with its weight in millionths.
#[derive(Debug, Clone, Copy, PartialEq, Eq)]
pub struct WeightedRule {
    pub rule: Rule,
    pub weight: i32,
}

impl WeightedRule {
    pub fn new(rule: Rule, weight: i32) -> (r: Self)
        ensures
            r.rule == rule,
            r.weight == weight,
    {
        WeightedRule { rule, weight }
    }
}

/// The key component of a score.
pub open spec fn enc(s: Score) -> int {
    match s {
        Score::Finite(v) => v as int,
        Score::Infinite => INFINITE_KEY as int,
    }
}

/// Sum of the bytes of a text.
pub open spec fn byte_sum(b: Seq<u8>) -> int
    decreases b.len(),
{
    if b.len() == 0 {
        0
    } else {
        byte_sum(b.drop_last()) + b.last() as int
    }
}

/// The UTF-8 bytes of the task id.
pub open spec fn id_bytes(task: Task) -> Seq<u8> {
    vstd::utf8::encode_utf8(task.id@)
}

/// Key components of the final tie-breaker.
pub open spec fn tie_key(tb: TieBreaker, task: Task) -> Seq<int> {
    match tb {
        TieBreaker::NextRule => Seq::empty(),
        TieBreaker::Random => seq![byte_sum(id_bytes(task))],
        TieBreaker::ById => id_bytes(task).map_values(|b: u8| b as int),
    }
}

/// Key components of the rules' raw scores, in rule order.
pub open spec fn score_keys(rules: Seq<WeightedRule>, task: Task, ctx: SchedulingContext) -> Seq<int> {
    rules.map_values(|wr: WeightedRule| enc(rule_score(wr.rule, task, ctx)))
}

/// Sum of the weighted scores `weight * score` of the rules (in millionths
/// of millionths), or `None` when a score is infinite.
pub open spec fn weighted_total(rules: Seq<WeightedRule>, task: Task, ctx: SchedulingContext) -> Option<int>
    decreases rules.len(),
{
    if rules.len() == 0 {
        Some(0)
    } else {
        match (weighted_total(rules.drop_last(), task, ctx), rule_score(rules.last().rule, task, ctx)) {
            (Some(t), Score::Finite(v)) => Some(t + v as int * rules.last().weight as int),
            _ => None,
        }
    }
}

/// Some rule gives the task an infinite score under a non-negative weight.
/// Such a term is +infinity, or undefined for a zero weight, and an undefined
/// or mixed-sign infinite sum counts as +infinity; otherwise infinite scores
/// under negative weights make the sum -infinity.
pub open spec fn rising_infinity(rules: Seq<WeightedRule>, task: Task, ctx: SchedulingContext) -> bool {
    exists|k: int| 0 <= k < rules.len() && #[trigger] rule_score(rules[k].rule, task, ctx) is Infinite && rules[k].weight >= 0
}

/// A strict lexicographic order; a proper prefix comes first.
pub open spec fn lex_less(a: Seq<int>, b: Seq<int>) -> bool
    decreases a.len(),
{
    if a.len() == 0 {
        b.len() > 0
    } else if b.len() == 0 {
        false
    } else if a[0] != b[0] {
        a[0] < b[0]
    } else {
        lex_less(a.drop_first(), b.drop_first())
    }
}

proof fn lemma_lex_trans(a: Seq<int>, b: Seq<int>, c: Seq<int>)
    requires
        lex_less(a, b),
        lex_less(b, c),
    ensures
        lex_less(a, c),
    decreases a.len(),
{
    if a.len() > 0 && b.len() > 0 && c.len() > 0 && a[0] == b[0] && b[0] == c[0] {
        lemma_lex_trans(a.drop_first(), b.drop_first(), c.drop_first());
    }
}

proof fn lemma_lex_total(a: Seq<int>, b: Seq<int>)
    ensures
        lex_less(a, b) || lex_less(b, a) || a == b,
        !(lex_less(a, b) && lex_less(b, a)),
        !lex_less(a, a),
    decreases a.len(),
{
    if a.len() > 0 && b.len() > 0 && a[0] == b[0] {
        lemma_lex_total(a.drop_first(), b.drop_first());
        if a.drop_first() == b.drop_first() {
            assert(a =~= seq![a[0]] + a.drop_first());
            assert(b =~= seq![b[0]] + b.drop_first());
        }
    }
    if a.len() > 0 {
        lemma_lex_total(a.drop_first(), a.drop_first());
    }
    if a.len() == 0 && b.len() == 0 {
        assert(a =~= b);
    }
}

/// `r` lists each key's index once, ordered by the keys, equal keys in index order.
pub open spec fn is_sorted_order(keys: Seq<Seq<int>>, r: Seq<usize>) -> bool {
    &&& r.len() == keys.len()
    &&& forall|i: int| 0 <= i < r.len() ==> r[i] < keys.len()
    &&& forall|i: int, j: int| 0 <= i < j < r.len() ==> r[i] != r[j]
    &&& forall|x: int| 0 <= x < keys.len() ==> #[trigger] crate::scheduler::order::listed(r, x)
    &&& forall|i: int, j: int| 0 <= i < j < r.len() ==> !lex_less(keys[r[j] as int], keys[r[i] as int])
    &&& forall|i: int, j: int| 0 <= i < j < r.len() && keys[r[i] as int] == keys[r[j] as int] ==> r[i] < r[j]
}

pub open spec fn as_ints(v: Seq<i128>) -> Seq<int> {
    v.map_values(|x: i128| x as int)
}

fn lex_less_exec(a: &Vec<i128>, b: &Vec<i128>) -> (r: bool)
    ensures
        r == lex_less(as_ints(a@), as_ints(b@)),
{
    let mut i: usize = 0;
    proof {
        assert(as_ints(a@).skip(0) =~= as_ints(a@));
        assert(as_ints(b@).skip(0) =~= as_ints(b@));
    }
    while i < a.len() && i < b.len() && a[i] == b[i]
        invariant
            i <= a@.len(),
            i <= b@.len(),
            lex_less(as_ints(a@), as_ints(b@)) == lex_less(as_ints(a@).skip(i as int), as_ints(b@).skip(i as int)),
        decreases a@.len() - i,
    {
        proof {
            assert(as_ints(a@).skip(i as int).drop_first() =~= as_ints(a@).skip(i + 1));
            assert(as_ints(b@).skip(i as int).drop_first() =~= as_ints(b@).skip(i + 1));
        }
        i += 1;
    }
    if i == a.len() {
        i < b.len()
    } else if i == b.len() {
        false
    } else {
        a[i] < b[i]
    }
}

/// Indices of the keys in stable lexicographic order.
pub fn stable_order_by_keys(keys: &Vec<Vec<i128>>) -> (r: Vec<usize>)
    ensures
        is_sorted_order(keys@.map_values(|k: Vec<i128>| as_ints(k@)), r@),
{
    let ghost ks = keys@.map_values(|k: Vec<i128>| as_ints(k@));
    let mut r: Vec<usize> = Vec::new();
    let mut n: usize = 0;
    while n < keys.len()
        invariant
            n <= keys@.len(),
            ks == keys@.map_values(|k: Vec<i128>| as_ints(k@)),
            r@.len() == n,
            forall|i: int| 0 <= i < r@.len() ==> r@[i] < n,
            forall|i: int, j: int| 0 <= i < j < r@.len() ==> r@[i] != r@[j],
            forall|x: int| 0 <= x < n ==> #[trigger] crate::scheduler::order::listed(r@, x),
            forall|i: int, j: int| 0 <= i < j < r@.len() ==> !lex_less(ks[r@[j] as int], ks[r@[i] as int]),
            forall|i: int, j: int| 0 <= i < j < r@.len() && ks[r@[i] as int] == ks[r@[j] as int] ==> r@[i] < r@[j],
        decreases keys@.len() - n,
    {
        let mut p: usize = 0;
        while p < r.len() && !lex_less_exec(&keys[n], &keys[r[p]])
            invariant
                p <= r@.len(),
                r@.len() == n,
                n < keys@.len(),
                ks == keys@.map_values(|k: Vec<i128>| as_ints(k@)),
                forall|i: int| 0 <= i < r@.len() ==> r@[i] < n,
                forall|i: int| 0 <= i < p ==> !lex_less(ks[n as int], ks[r@[i] as int]),
            decreases r@.len() - p,
        {
            p += 1;
        }
        let ghost old_r = r@;
        r.insert(p, n);
        proof {
            let kn = ks[n as int];
            assert(r@ == old_r.insert(p as int, n));
            assert forall|i: int| p < i < r@.len() implies lex_less(kn, ks[r@[i] as int]) by {
                assert(r@[i] == old_r[i - 1]);
                assert(lex_less(kn, ks[old_r[p as int] as int]));
                if i - 1 > p {
                    let a = ks[old_r[p as int] as int];
                    let b = ks[old_r[i - 1] as int];
                    lemma_lex_total(a, b);
                    if lex_less(a, b) {
                        lemma_lex_trans(kn, a, b);
                    }
                }
            }
            assert forall|i: int, j: int| 0 <= i < j < r@.len() implies r@[i] != r@[j] by {
                if i < p && j > p {
                    assert(r@[j] == old_r[j - 1]);
                } else if j > p && i > p {
                    assert(r@[j] == old_r[j - 1]);
                    assert(r@[i] == old_r[i - 1]);
                }
            }
            assert forall|x: int| 0 <= x < n + 1 implies #[trigger] crate::scheduler::order::listed(r@, x) by {
                if x == n {
                    assert(r@[p as int] == x);
                } else {
                    assert(crate::scheduler::order::listed(old_r, x));
                    let q = choose|q: int| 0 <= q < old_r.len() && old_r[q] == x;
                    if q < p {
                        assert(r@[q] == x);
                    } else {
                        assert(r@[q + 1] == x);
                    }
                }
            }
            assert forall|i: int, j: int| 0 <= i < j < r@.len() implies !lex_less(ks[r@[j] as int], ks[r@[i] as int]) by {
                if j > p && i > p {
                    assert(r@[j] == old_r[j - 1]);
                    assert(r@[i] == old_r[i - 1]);
                } else if i < p && j > p {
                    assert(r@[j] == old_r[j - 1]);
                    assert(r@[i] == old_r[i]);
                    let a = ks[old_r[i] as int];
                    let b = ks[old_r[j - 1] as int];
                    assert(!lex_less(kn, a));
                    assert(lex_less(kn, b));
                    lemma_lex_total(kn, a);
                    lemma_lex_total(a, b);
                    if lex_less(b, a) {
                        if lex_less(a, kn) {
                            lemma_lex_trans(b, a, kn);
                            lemma_lex_total(kn, b);
                        } else {
                            assert(a == kn);
                            lemma_lex_total(kn, b);
                        }
                    }
                } else if i < p && j == p {
                    assert(r@[i] == old_r[i]);
                } else if i == p && j > p {
                    assert(r@[j] == old_r[j - 1]);
                    lemma_lex_total(kn, ks[r@[j] as int]);
                }
            }
            assert forall|i: int, j: int|
                0 <= i < j < r@.len() && ks[r@[i] as int] == ks[r@[j] as int] implies r@[i] < r@[j] by {
                if j > p && i > p {
                    assert(r@[j] == old_r[j - 1]);
                    assert(r@[i] == old_r[i - 1]);
                } else if i < p && j > p {
                    assert(r@[j] == old_r[j - 1]);
                    assert(r@[i] == old_r[i]);
                } else if i == p && j > p {
                    assert(r@[j] == old_r[j - 1]);
                    lemma_lex_total(kn, kn);
                }
            }
        }
        n += 1;
    }
    r
}

/// A rule's score times its weight, in millionths, rounded down.
pub open spec fn weighted_score(s: Score, w: i32) -> Score {
    match s {
        Score::Finite(v) => Score::Finite(((v as int * w as int) / WEIGHT_SCALE as int) as i128),
        Score::Infinite => Score::Infinite,
    }
}

/// Orders tasks by dispatching rules.
#[derive(Debug, Clone)]
pub struct RuleEngine {
    rules: Vec<WeightedRule>,
    mode: EvaluationMode,
    tie_breaker: TieBreaker,
}

impl RuleEngine {
    pub closed spec fn rule_list(&self) -> Seq<WeightedRule> {
        self.rules@
    }

    pub closed spec fn mode_of(&self) -> EvaluationMode {
        self.mode
    }

    pub closed spec fn tie_breaker_of(&self) -> TieBreaker {
        self.tie_breaker
    }

    /// The engine holds at most `MAX_RULES` rules.
    pub open spec fn wf(&self) -> bool {
        self.rule_list().len() <= MAX_RULES
    }

    /// The key by which the engine orders a task; smaller keys come first.
    pub open spec fn key(&self, task: Task, ctx: SchedulingContext) -> Seq<int> {
        match self.mode_of() {
            EvaluationMode::Sequential => score_keys(self.rule_list(), task, ctx) + tie_key(self.tie_breaker_of(), task),
            EvaluationMode::Weighted => seq![
                match weighted_total(self.rule_list(), task, ctx) {
                    Some(t) => t,
                    None => if rising_infinity(self.rule_list(), task, ctx) {
                        INFINITE_KEY as int
                    } else {
                        -(INFINITE_KEY as int)
                    },
                },
            ],
        }
    }

    /// The keys of a list of tasks.
    pub open spec fn keys(&self, tasks: Seq<&Task>, ctx: SchedulingContext) -> Seq<Seq<int>> {
        tasks.map_values(|t: &Task| self.key(*t, ctx))
    }

    /// An engine without rules, in sequential mode, keeping ties in input order.
    pub fn new() -> (r: Self)
        ensures
            r.wf(),
            r.rule_list().len() == 0,
            r.mode_of() == EvaluationMode::Sequential,
            r.tie_breaker_of() == TieBreaker::NextRule,
    {
        RuleEngine { rules: Vec::new(), mode: EvaluationMode::Sequential, tie_breaker: TieBreaker::NextRule }
    }

    /// Appends a rule of weight 1.
    pub fn with_rule(self, rule: Rule) -> (r: Self)
        requires
            self.rule_list().len() < MAX_RULES,
        ensures
            r.wf(),
            r.rule_list() == self.rule_list().push(WeightedRule { rule, weight: 1_000_000 }),
            r.mode_of() == self.mode_of(),
            r.tie_breaker_of() == self.tie_breaker_of(),
    {
        self.with_weighted_rule(rule, 1_000_000)
    }

    /// Appends a rule with a weight in millionths.
    pub fn with_weighted_rule(self, rule: Rule, weight: i32) -> (r: Self)
        requires
            self.rule_list().len() < MAX_RULES,
        ensures
            r.wf(),
            r.rule_list() == self.rule_list().push(WeightedRule { rule, weight }),
            r.mode_of() == self.mode_of(),
            r.tie_breaker_of() == self.tie_breaker_of(),
    {
        let mut s = self;
        s.rules.push(WeightedRule::new(rule, weight));
        s
    }

    /// Appends a rule of weight 0: it only breaks ties in sequential mode.
    pub fn with_tie_breaker(self, rule: Rule) -> (r: Self)
        requires
            self.rule_list().len() < MAX_RULES,
        ensures
            r.wf(),
            r.rule_list() == self.rule_list().push(WeightedRule { rule, weight: 0 }),
            r.mode_of() == self.mode_of(),
            r.tie_breaker_of() == self.tie_breaker_of(),
    {
        self.with_weighted_rule(rule, 0)
    }

    pub fn with_mode(self, mode: EvaluationMode) -> (r: Self)
        ensures
            r.rule_list() == self.rule_list(),
            r.mode_of() == mode,
            r.tie_breaker_of() == self.tie_breaker_of(),
    {
        RuleEngine { mode, ..self }
    }

    pub fn with_final_tie_breaker(self, tie_breaker: TieBreaker) -> (r: Self)
        ensures
            r.rule_list() == self.rule_list(),
            r.mode_of() == self.mode_of(),
            r.tie_breaker_of() == tie_breaker,
    {
        RuleEngine { tie_breaker, ..self }
    }

    pub fn is_empty(&self) -> (r: bool)
        ensures
            r == (self.rule_list().len() == 0),
    {
        self.rules.len() == 0
    }

    pub fn rule_count(&self) -> (r: usize)
        ensures
            r == self.rule_list().len(),
    {
        self.rules.len()
    }

    /// The raw score of each rule, in rule order.
    fn evaluate_raw(&self, task: &Task, context: &SchedulingContext) -> (r: Vec<Score>)
        requires
            work_fits(*task),
        ensures
            r@.len() == self.rule_list().len(),
            forall|i: int| 0 <= i < r@.len() ==> #[trigger] r@[i] == rule_score(self.rule_list()[i].rule, *task, *context),
            forall|i: int| 0 <= i < r@.len() ==> bounded(#[trigger] r@[i]),
    {
        let mut r: Vec<Score> = Vec::new();
        let mut i: usize = 0;
        while i < self.rules.len()
            invariant
                i <= self.rules@.len(),
                work_fits(*task),
                r@.len() == i,
                forall|k: int| 0 <= k < i ==> #[trigger] r@[k] == rule_score(self.rules@[k].rule, *task, *context),
                forall|k: int| 0 <= k < i ==> bounded(#[trigger] r@[k]),
            decreases self.rules@.len() - i,
        {
            r.push(self.rules[i].rule.evaluate(task, context));
            i += 1;
        }
        r
    }

    /// The weighted score of each rule, in rule order.
    pub fn evaluate(&self, task: &Task, context: &SchedulingContext) -> (r: Vec<Score>)
        requires
            work_fits(*task),
        ensures
            r@.len() == self.rule_list().len(),
            forall|i: int| 0 <= i < r@.len() ==> #[trigger] r@[i] == weighted_score(
                rule_score(self.rule_list()[i].rule, *task, *context),
                self.rule_list()[i].weight,
            ),
    {
        let raw = self.evaluate_raw(task, context);
        let mut r: Vec<Score> = Vec::new();
        let mut i: usize = 0;
        while i < raw.len()
            invariant
                i <= raw@.len(),
                raw@.len() == self.rules@.len(),
                forall|k: int| 0 <= k < raw@.len() ==> #[trigger] raw@[k] == rule_score(self.rules@[k].rule, *task, *context),
                forall|k: int| 0 <= k < raw@.len() ==> bounded(#[trigger] raw@[k]),
                r@.len() == i,
                forall|k: int| 0 <= k < i ==> #[trigger] r@[k] == weighted_score(raw@[k], self.rules@[k].weight),
            decreases raw@.len() - i,
        {
            let w = self.rules[i].weight;
            let s = match raw[i] {
                Score::Finite(v) => {
                    proof {
                        assert(bounded(raw@[i as int]));
                        let vi = v as int;
                        let wi = w as int;
                        assert(-0x40_0000_0000_0000_0000_0000int * 0x8000_0000int <= vi * wi <= 0x40_0000_0000_0000_0000_0000int * 0x8000_0000int)
                            by (nonlinear_arith)
                            requires -0x40_0000_0000_0000_0000_0000int <= vi <= 0x40_0000_0000_0000_0000_0000int,
                                -0x8000_0000int <= wi <= 0x8000_0000int;
                    }
                    let p = v * w as i128;
                    let q = if p >= 0 {
                        p / WEIGHT_SCALE
                    } else {
                        -((-p + WEIGHT_SCALE - 1) / WEIGHT_SCALE)
                    };
                    proof {
                        let pi = p as int;
                        let qi = q as int;
                        if p < 0 {
                            assert(qi == -((-pi + 1_000_000 - 1) / 1_000_000));
                            assert(pi / 1_000_000 == qi) by (nonlinear_arith)
                                requires pi < 0, qi == -((-pi + 1_000_000 - 1) / 1_000_000);
                        }
                    }
                    Score::Finite(q)
                },
                Score::Infinite => Score::Infinite,
            };
            r.push(s);
            i += 1;
        }
        r
    }

    /// The key of a task, as computed.
    fn key_of(&self, task: &Task, context: &SchedulingContext) -> (r: Vec<i128>)
        requires
            self.wf(),
            work_fits(*task),
        ensures
            as_ints(r@) == self.key(*task, *context),
    {
        let raw = self.evaluate_raw(task, context);
        match self.mode {
            EvaluationMode::Weighted => {
                let mut total: i128 = 0;
                let mut infinite = false;
                let mut rising = false;
                let mut i: usize = 0;
                while i < raw.len()
                    invariant
                        i <= raw@.len(),
                        raw@.len() == self.rules@.len(),
                        self.rules@.len() <= MAX_RULES,
                        forall|k: int| 0 <= k < raw@.len() ==> #[trigger] raw@[k] == rule_score(self.rules@[k].rule, *task, *context),
                        forall|k: int| 0 <= k < raw@.len() ==> bounded(#[trigger] raw@[k]),
                        infinite ==> weighted_total(self.rules@.subrange(0, i as int), *task, *context) is None,
                        rising == rising_infinity(self.rules@.subrange(0, i as int), *task, *context),
                        !infinite ==> weighted_total(self.rules@.subrange(0, i as int), *task, *context) == Some(total as int),
                        -(i as int) * 0x20_0000_0000_0000_0000_0000_0000_0000int <= total <= (i as int) * 0x20_0000_0000_0000_0000_0000_0000_0000int,
                    decreases raw@.len() - i,
                {
                    proof {
                        assert(self.rules@.subrange(0, i + 1).drop_last() =~= self.rules@.subrange(0, i as int));
                    }
                    match raw[i] {
                        Score::Finite(v) => {
                            let w = self.rules[i].weight as i128;
                            proof {
                                assert(bounded(raw@[i as int]));
                                let vi = v as int;
                                let wi = w as int;
                                assert(-0x20_0000_0000_0000_0000_0000_0000_0000int <= vi * wi <= 0x20_0000_0000_0000_0000_0000_0000_0000int)
                                    by (nonlinear_arith)
                                    requires -0x40_0000_0000_0000_0000_0000int <= vi <= 0x40_0000_0000_0000_0000_0000int,
                                        -0x8000_0000int <= wi <= 0x8000_0000int;
                                assert((i as int) * 0x20_0000_0000_0000_0000_0000_0000_0000int <= 256 * 0x20_0000_0000_0000_0000_0000_0000_0000int)
                                    by (nonlinear_arith)
                                    requires i < 256;
                            }
                            if !infinite {
                                total = total + v * w;
                            }
                        },
                        Score::Infinite => {
                            infinite = true;
                            if self.rules[i].weight >= 0 {
                                rising = true;
                            }
                        },
                    }
                    i += 1;
                }
                proof {
                    assert(self.rules@.subrange(0, i as int) =~= self.rules@);
                }
                let mut r: Vec<i128> = Vec::new();
                r.push(if !infinite { total } else if rising { INFINITE_KEY } else { -INFINITE_KEY });
                proof {
                    assert(as_ints(r@) =~= self.key(*task, *context));
                }
                r
            },
            EvaluationMode::Sequential => {
                let mut r: Vec<i128> = Vec::new();
                let mut i: usize = 0;
                while i < raw.len()
                    invariant
                        i <= raw@.len(),
                        raw@.len() == self.rules@.len(),
                        forall|k: int| 0 <= k < raw@.len() ==> #[trigger] raw@[k] == rule_score(self.rules@[k].rule, *task, *context),
                        as_ints(r@) =~= score_keys(self.rules@.subrange(0, i as int), *task, *context),
                    decreases raw@.len() - i,
                {
                    let k = match raw[i] {
                        Score::Finite(v) => v,
                        Score::Infinite => INFINITE_KEY,
                    };
                    let ghost before = r@;
                    r.push(k);
                    proof {
                        assert(k as int == enc(rule_score(self.rules@[i as int].rule, *task, *context)));
                        assert(as_ints(r@) =~= as_ints(before).push(k as int));
                        assert(score_keys(self.rules@.subrange(0, i + 1), *task, *context)
                            =~= score_keys(self.rules@.subrange(0, i as int), *task, *context).push(k as int));
                    }
                    i += 1;
                }
                proof {
                    assert(self.rules@.subrange(0, i as int) =~= self.rules@);
                }
                let bytes = task.id.as_str().as_bytes();
                let ghost head = as_ints(r@);
                match self.tie_breaker {
                    TieBreaker::NextRule => {},
                    TieBreaker::Random => {
                        let mut sum: i128 = 0;
                        let mut j: usize = 0;
                        while j < bytes.len()
                            invariant
                                j <= bytes@.len(),
                                bytes@ == id_bytes(*task),
                                sum == byte_sum(bytes@.subrange(0, j as int)),
                                0 <= sum <= j * 256,
                            decreases bytes@.len() - j,
                        {
                            proof {
                                assert(bytes@.subrange(0, j + 1).drop_last() =~= bytes@.subrange(0, j as int));
                            }
                            sum = sum + bytes[j] as i128;
                            j += 1;
                        }
                        proof {
                            assert(bytes@.subrange(0, j as int) =~= bytes@);
                        }
                        r.push(sum);
                    },
                    TieBreaker::ById => {
                        let mut j: usize = 0;
                        while j < bytes.len()
                            invariant
                                j <= bytes@.len(),
                                bytes@ == id_bytes(*task),
                                as_ints(r@) =~= head + bytes@.subrange(0, j as int).map_values(|b: u8| b as int),
                            decreases bytes@.len() - j,
                        {
                            let ghost before = r@;
                            r.push(bytes[j] as i128);
                            proof {
                                assert(as_ints(r@) =~= as_ints(before).push(bytes@[j as int] as int));
                                assert(bytes@.subrange(0, j + 1).map_values(|b: u8| b as int)
                                    =~= bytes@.subrange(0, j as int).map_values(|b: u8| b as int).push(bytes@[j as int] as int));
                            }
                            j += 1;
                        }
                        proof {
                            assert(bytes@.subrange(0, j as int) =~= bytes@);
                        }
                    },
                }
                proof {
                    assert(as_ints(r@) =~= self.key(*task, *context));
                }
                r
            },
        }
    }

    /// The tasks ordered by the engine: by ascending key, ties in input
    /// order; unchanged when the engine has no rules.
    pub fn sort<'a>(&self, tasks: &[&'a Task], context: &SchedulingContext) -> (r: Vec<&'a Task>)
        requires
            self.wf(),
            forall|i: int| 0 <= i < tasks@.len() ==> work_fits(*#[trigger] tasks@[i]),
        ensures
            self.rule_list().len() == 0 ==> r@ == tasks@,
            self.rule_list().len() > 0 ==> exists|order: Seq<usize>|
                is_sorted_order(self.keys(tasks@, *context), order) && r@ == order.map_values(|i: usize| tasks@[i as int]),
    {
        if self.rules.len() == 0 || tasks.len() == 0 {
            let mut r: Vec<&'a Task> = Vec::new();
            let mut i: usize = 0;
            while i < tasks.len()
                invariant
                    i <= tasks@.len(),
                    r@ =~= tasks@.subrange(0, i as int),
                decreases tasks@.len() - i,
            {
                r.push(tasks[i]);
                i += 1;
            }
            proof {
                assert(tasks@.subrange(0, i as int) =~= tasks@);
                if tasks@.len() == 0 {
                    let order = Seq::<usize>::empty();
                    assert(self.keys(tasks@, *context) =~= Seq::<Seq<int>>::empty());
                    assert(r@ =~= order.map_values(|i: usize| tasks@[i as int]));
                    assert(is_sorted_order(self.keys(tasks@, *context), order));
                }
            }
            return r;
        }
        let mut keys: Vec<Vec<i128>> = Vec::new();
        let mut i: usize = 0;
        while i < tasks.len()
            invariant
                i <= tasks@.len(),
                self.wf(),
                forall|k: int| 0 <= k < tasks@.len() ==> work_fits(*#[trigger] tasks@[k]),
                keys@.len() == i,
                forall|k: int| 0 <= k < i ==> as_ints(#[trigger] keys@[k]@) == self.key(*tasks@[k], *context),
            decreases tasks@.len() - i,
        {
            keys.push(self.key_of(tasks[i], context));
            i += 1;
        }
        let order = stable_order_by_keys(&keys);
        proof {
            assert(keys@.map_values(|k: Vec<i128>| as_ints(k@)) =~= self.keys(tasks@, *context));
        }
        let mut r: Vec<&'a Task> = Vec::new();
        let mut j: usize = 0;
        while j < order.len()
            invariant
                j <= order@.len(),
                is_sorted_order(self.keys(tasks@, *context), order@),
                order@.len() == tasks@.len(),
                r@ =~= order@.subrange(0, j as int).map_values(|i: usize| tasks@[i as int]),
            decreases order@.len() - j,
        {
            r.push(tasks[order[j]]);
            j += 1;
        }
        proof {
            assert(order@.subrange(0, j as int) =~= order@);
        }
        r
    }

    /// The first task of the engine's order, if any.
    pub fn select_best<'a>(&self, tasks: &[&'a Task], context: &SchedulingContext) -> (r: Option<&'a Task>)
        requires
            self.wf(),
            forall|i: int| 0 <= i < tasks@.len() ==> work_fits(*#[trigger] tasks@[i]),
        ensures
            tasks@.len() == 0 ==> r is None,
            tasks@.len() > 0 && self.rule_list().len() == 0 ==> r == Some(tasks@[0]),
            tasks@.len() > 0 && self.rule_list().len() > 0 ==> exists|order: Seq<usize>|
                is_sorted_order(self.keys(tasks@, *context), order) && r == Some(tasks@[order[0] as int]),
    {
        let sorted = self.sort(tasks, context);
        if sorted.len() == 0 {
            None
        } else {
            Some(sorted[0])
        }
    }
}

impl Default for RuleEngine {
    fn default() -> (r: Self)
        ensures
            r.wf(),
            r.rule_list().len() == 0,
    {
        RuleEngine::new()
    }
}

/// The weighted sum `w1 * s1 + w2 * s2` of a task's raw scores under a
/// two-rule engine.
pub open spec fn two_rule_sum(e: RuleEngine, t: Task, ctx: SchedulingContext) -> int {
    e.rule_list()[0].weight as int * rank(rule_score(e.rule_list()[0].rule, t, ctx))
        + e.rule_list()[1].weight as int * rank(rule_score(e.rule_list()[1].rule, t, ctx))
}

/// Weighted-mode linearity: when a weighted two-rule engine orders tasks
/// whose scores are all finite, an earlier task never has a larger sum
/// `w1 * s1 + w2 * s2` of its raw scores than a later one.
pub proof fn weighted_order_is_linear(e: RuleEngine, tasks: Seq<&Task>, ctx: SchedulingContext, order: Seq<usize>)
    requires
        e.mode_of() == EvaluationMode::Weighted,
        e.rule_list().len() == 2,
        is_sorted_order(e.keys(tasks, ctx), order),
        forall|k: int, q: int| 0 <= k < tasks.len() && 0 <= q < 2
            ==> rule_score(e.rule_list()[q].rule, *tasks[k], ctx) is Finite,
    ensures
        forall|i: int, j: int| 0 <= i < j < order.len()
            ==> two_rule_sum(e, *tasks[order[i] as int], ctx) <= two_rule_sum(e, *tasks[order[j] as int], ctx),
{
    assert forall|i: int, j: int| 0 <= i < j < order.len()
        implies two_rule_sum(e, *tasks[order[i] as int], ctx) <= two_rule_sum(e, *tasks[order[j] as int], ctx) by {
        let rl = e.rule_list();
        let a = *tasks[order[i] as int];
        let b = *tasks[order[j] as int];
        assert(rl.drop_last().drop_last() =~= Seq::<WeightedRule>::empty());
        assert(rl.drop_last().last() == rl[0]);
        assert(rl.last() == rl[1]);
        let ka = e.keys(tasks, ctx)[order[i] as int];
        let kb = e.keys(tasks, ctx)[order[j] as int];
        assert(ka == e.key(a, ctx));
        assert(kb == e.key(b, ctx));
        assert(!lex_less(kb, ka));
        assert(order[i] < tasks.len() && order[j] < tasks.len());
        assert(rule_score(rl[0].rule, a, ctx) is Finite);
        assert(rule_score(rl[1].rule, a, ctx) is Finite);
        assert(rule_score(rl[0].rule, b, ctx) is Finite);
        assert(rule_score(rl[1].rule, b, ctx) is Finite);
        reveal_with_fuel(weighted_total, 3);
        assert(weighted_total(rl.drop_last().drop_last(), a, ctx) == Some(0int));
        assert(weighted_total(rl.drop_last().drop_last(), b, ctx) == Some(0int));
        let a0 = rank(rule_score(rl[0].rule, a, ctx));
        let a1 = rank(rule_score(rl[1].rule, a, ctx));
        let b0 = rank(rule_score(rl[0].rule, b, ctx));
        let b1 = rank(rule_score(rl[1].rule, b, ctx));
        assert(weighted_total(rl.drop_last(), a, ctx) == Some(0 + a0 * rl[0].weight as int));
        assert(weighted_total(rl, a, ctx) == Some(0 + a0 * rl[0].weight as int + a1 * rl[1].weight as int));
        assert(weighted_total(rl.drop_last(), b, ctx) == Some(0 + b0 * rl[0].weight as int));
        assert(weighted_total(rl, b, ctx) == Some(0 + b0 * rl[0].weight as int + b1 * rl[1].weight as int));
        assert(a0 * rl[0].weight as int == rl[0].weight as int * a0) by (nonlinear_arith);
        assert(a1 * rl[1].weight as int == rl[1].weight as int * a1) by (nonlinear_arith);
        assert(b0 * rl[0].weight as int == rl[0].weight as int * b0) by (nonlinear_arith);
        assert(b1 * rl[1].weight as int == rl[1].weight as int * b1) by (nonlinear_arith);
        assert(ka[0] == two_rule_sum(e, a, ctx));
        assert(kb[0] == two_rule_sum(e, b, ctx));
        assert(kb.drop_first().len() == 0);
    }
}

} // verus!

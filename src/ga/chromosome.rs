//! The genome: an operation sequence (OSV) of task ids, where the k-th
//! occurrence of a task stands for its k-th activity, and a machine
//! assignment (MAV) giving a resource to each activity in canonical order.
use vstd::prelude::*;
use rand::rngs::StdRng;
use crate::ga::random::{views, shuffle_strings, choose_string};
use crate::models::resource::{Resource, ResourceType};
use crate::text::same_text;

verus! {

broadcast use vstd::seq_lib::group_to_multiset_ensures, vstd::multiset::group_multiset_properties;

/// Fitness of a genome not yet evaluated; it stands for infinity.
pub const UNEVALUATED: i64 = i64::MAX;

/// MAV entry of an activity without candidates.
pub const NO_RESOURCE: &'static str = "NONE";

/// What the genetic algorithm needs to know of one activity.
#[derive(Debug, Clone)]
pub struct ActivityInfo {
    pub task_id: String,
    pub activity_id: String,
    pub sequence: i32,
    pub candidates: Vec<String>,
    pub process_time_ms: i64,
}

/// The task ids of the activities, in canonical order.
pub open spec fn task_ids(acts: Seq<ActivityInfo>) -> Seq<Seq<char>> {
    acts.map_values(|a: ActivityInfo| a.task_id@)
}

/// Each MAV entry is one of its activity's candidates, where it has any.
pub open spec fn mav_fits(mav: Seq<String>, acts: Seq<ActivityInfo>) -> bool {
    forall|i: int|
        0 <= i < acts.len() && acts[i].candidates@.len() > 0 ==> views(acts[i].candidates@).contains(
            #[trigger] mav[i]@,
        )
}

/// The validity predicate of a genome: one OSV entry and one MAV entry per
/// activity, each task id in the OSV as often as the task has activities, and
/// every MAV entry among its activity's candidates.
pub open spec fn genome_valid(osv: Seq<String>, mav: Seq<String>, acts: Seq<ActivityInfo>) -> bool {
    &&& osv.len() == acts.len()
    &&& mav.len() == acts.len()
    &&& views(osv).to_multiset() == task_ids(acts).to_multiset()
    &&& mav_fits(mav, acts)
}

/// The number of occurrences of `x` among the first `n` entries of `s`.
pub open spec fn occurrences(s: Seq<String>, n: int, x: Seq<char>) -> nat {
    views(s.subrange(0, n)).to_multiset().count(x)
}

/// Processing time of an activity on a resource.
#[derive(Debug, Clone)]
pub struct ProcessTime {
    pub activity_id: String,
    pub resource_id: String,
    pub time_ms: i64,
}

/// The time of the latest entry for the pair, if any.
pub open spec fn time_entry(t: Seq<ProcessTime>, activity: Seq<char>, resource: Seq<char>) -> Option<i64>
    decreases t.len(),
{
    if t.len() == 0 {
        None
    } else if t.last().activity_id@ == activity && t.last().resource_id@ == resource {
        Some(t.last().time_ms)
    } else {
        time_entry(t.drop_last(), activity, resource)
    }
}

/// The time of the pair; unknown pairs take the longest time.
pub open spec fn time_of(t: Seq<ProcessTime>, activity: Seq<char>, resource: Seq<char>) -> i64 {
    match time_entry(t, activity, resource) {
        Some(x) => x,
        None => i64::MAX,
    }
}

/// A genome with its fitness (lower is better).
#[derive(Debug, Clone, PartialEq)]
pub struct Chromosome {
    pub osv: Vec<String>,
    pub mav: Vec<String>,
    /// `(task id, sequence)` of each canonical activity, by MAV position.
    pub activity_index: Vec<(String, i32)>,
    pub fitness: i64,
}

/// Number of entries of `v` with the view of `x`.
pub fn count_text(v: &Vec<String>, x: &String) -> (r: usize)
    ensures
        r == views(v@).to_multiset().count(x@),
{
    let mut r: usize = 0;
    let mut k: usize = 0;
    while k < v.len()
        invariant
            k <= v@.len(),
            r == views(v@.subrange(0, k as int)).to_multiset().count(x@),
            r <= k,
        decreases v@.len() - k,
    {
        proof {
            assert(views(v@.subrange(0, k + 1)) =~= views(v@.subrange(0, k as int)).push(v@[k as int]@));
        }
        if v[k] == *x {
            r += 1;
        }
        k += 1;
    }
    proof {
        assert(v@.subrange(0, k as int) =~= v@);
    }
    r
}

/// Whether some entry of `v` has the view of `x`.
pub fn contains_text(v: &Vec<String>, x: &String) -> (r: bool)
    ensures
        r == views(v@).contains(x@),
{
    let mut k: usize = 0;
    while k < v.len()
        invariant
            k <= v@.len(),
            forall|j: int| 0 <= j < k ==> v@[j]@ != x@,
        decreases v@.len() - k,
    {
        if v[k] == *x {
            proof {
                assert(views(v@)[k as int] == x@);
            }
            return true;
        }
        k += 1;
    }
    proof {
        if views(v@).contains(x@) {
            let j = choose|j: int| 0 <= j < views(v@).len() && views(v@)[j] == x@;
            assert(v@[j]@ == x@);
        }
    }
    false
}

/// The task ids of the activities, copied in canonical order.
fn task_id_list(acts: &[ActivityInfo]) -> (r: Vec<String>)
    ensures
        views(r@) == task_ids(acts@),
{
    let mut r: Vec<String> = Vec::new();
    let mut i: usize = 0;
    while i < acts.len()
        invariant
            i <= acts@.len(),
            views(r@) =~= task_ids(acts@.subrange(0, i as int)),
        decreases acts@.len() - i,
    {
        let ghost old_r = r@;
        r.push(acts[i].task_id.clone());
        proof {
            assert(views(r@) =~= views(old_r).push(acts@[i as int].task_id@));
            assert(task_ids(acts@.subrange(0, i + 1)) =~= task_ids(acts@.subrange(0, i as int)).push(acts@[i as int].task_id@));
        }
        i += 1;
    }
    proof {
        assert(acts@.subrange(0, i as int) =~= acts@);
    }
    r
}

/// Lists with the same counts for every one of their entries have equal multisets.
proof fn lemma_same_counts(a: Seq<Seq<char>>, b: Seq<Seq<char>>)
    requires
        forall|i: int| 0 <= i < a.len() ==> a.to_multiset().count(#[trigger] a[i]) == b.to_multiset().count(a[i]),
        forall|i: int| 0 <= i < b.len() ==> a.to_multiset().count(#[trigger] b[i]) == b.to_multiset().count(b[i]),
    ensures
        a.to_multiset() == b.to_multiset(),
{
    assert forall|x: Seq<char>| a.to_multiset().count(x) == b.to_multiset().count(x) by {
        if a.to_multiset().count(x) > 0 {
            assert(a.contains(x));
            let i = choose|i: int| 0 <= i < a.len() && a[i] == x;
        } else if b.to_multiset().count(x) > 0 {
            assert(b.contains(x));
            let i = choose|i: int| 0 <= i < b.len() && b[i] == x;
        }
    }
    assert(a.to_multiset() =~= b.to_multiset());
}

impl Chromosome {
    pub open spec fn valid_for(&self, acts: Seq<ActivityInfo>) -> bool {
        genome_valid(self.osv@, self.mav@, acts)
    }

    /// A genome with a shuffled OSV and candidates drawn at random.
    pub fn random(activities: &[ActivityInfo], rng: &mut StdRng) -> (r: Self)
        ensures
            r.valid_for(activities@),
            r.fitness == UNEVALUATED,
    {
        let (osv, activity_index) = Self::create_random_osv(activities, rng);
        let mav = Self::create_random_mav(activities, rng);
        Chromosome { osv, mav, activity_index, fitness: UNEVALUATED }
    }

    /// A genome with a shuffled OSV and a load-balanced MAV.
    pub fn with_load_balancing(activities: &[ActivityInfo], resources: &[Resource], rng: &mut StdRng) -> (r: Self)
        requires
            activities@.len() <= u32::MAX,
        ensures
            r.valid_for(activities@),
            forall|i: int| 0 <= i < activities@.len() && activities@[i].candidates@.len() > 0
                ==> #[trigger] balanced_choice(activities@, resources@, r.mav@, i),
            r.fitness == UNEVALUATED,
    {
        let (osv, activity_index) = Self::create_random_osv(activities, rng);
        let mav = Self::create_load_balanced_mav(activities, resources);
        Chromosome { osv, mav, activity_index, fitness: UNEVALUATED }
    }

    /// A genome with a shuffled OSV and, for each activity, the candidate
    /// with the shortest processing time.
    pub fn with_shortest_time(activities: &[ActivityInfo], process_times: &Vec<ProcessTime>, rng: &mut StdRng) -> (r: Self)
        ensures
            r.valid_for(activities@),
            r.fitness == UNEVALUATED,
            forall|i: int, c: int| 0 <= i < activities@.len() && 0 <= c < activities@[i].candidates@.len()
                ==> time_of(process_times@, activities@[i].activity_id@, r.mav@[i]@)
                    <= time_of(process_times@, activities@[i].activity_id@, #[trigger] activities@[i].candidates@[c]@),
    {
        let (osv, activity_index) = Self::create_random_osv(activities, rng);
        let mav = Self::create_shortest_time_mav(activities, process_times);
        Chromosome { osv, mav, activity_index, fitness: UNEVALUATED }
    }

    /// Each activity's candidate of least processing time, the first on ties.
    fn create_shortest_time_mav(activities: &[ActivityInfo], process_times: &Vec<ProcessTime>) -> (r: Vec<String>)
        ensures
            r@.len() == activities@.len(),
            mav_fits(r@, activities@),
            forall|i: int, c: int| 0 <= i < activities@.len() && 0 <= c < activities@[i].candidates@.len()
                ==> time_of(process_times@, activities@[i].activity_id@, r@[i]@)
                    <= time_of(process_times@, activities@[i].activity_id@, #[trigger] activities@[i].candidates@[c]@),
    {
        let mut r: Vec<String> = Vec::new();
        let mut i: usize = 0;
        while i < activities.len()
            invariant
                i <= activities@.len(),
                r@.len() == i,
                forall|k: int| 0 <= k < i && activities@[k].candidates@.len() > 0
                    ==> views(activities@[k].candidates@).contains(#[trigger] r@[k]@),
                forall|k: int, c: int| 0 <= k < i && 0 <= c < activities@[k].candidates@.len()
                    ==> time_of(process_times@, activities@[k].activity_id@, r@[k]@)
                        <= time_of(process_times@, activities@[k].activity_id@, #[trigger] activities@[k].candidates@[c]@),
            decreases activities@.len() - i,
        {
            let act = &activities[i];
            if act.candidates.len() == 0 {
                r.push(NO_RESOURCE.to_owned());
            } else {
                let mut best: usize = 0;
                let mut best_time = lookup_time(process_times, &act.activity_id, &act.candidates[0]);
                let mut c: usize = 1;
                while c < act.candidates.len()
                    invariant
                        1 <= c <= act.candidates@.len(),
                        best < act.candidates@.len(),
                        best_time == time_of(process_times@, act.activity_id@, act.candidates@[best as int]@),
                        forall|d: int| 0 <= d < c ==> best_time <= time_of(process_times@, act.activity_id@, #[trigger] act.candidates@[d]@),
                    decreases act.candidates@.len() - c,
                {
                    let t = lookup_time(process_times, &act.activity_id, &act.candidates[c]);
                    if t < best_time {
                        best = c;
                        best_time = t;
                    }
                    c += 1;
                }
                r.push(act.candidates[best].clone());
                proof {
                    assert(views(act.candidates@)[best as int] == r@[i as int]@);
                }
            }
            proof {
                assert forall|k: int| 0 <= k < i + 1 && activities@[k].candidates@.len() > 0
                    implies views(activities@[k].candidates@).contains(#[trigger] r@[k]@) by {}
            }
            i += 1;
        }
        r
    }

    /// Task ids in canonical order, shuffled, and the canonical index.
    fn create_random_osv(activities: &[ActivityInfo], rng: &mut StdRng) -> (r: (Vec<String>, Vec<(String, i32)>))
        ensures
            views(r.0@).to_multiset() == task_ids(activities@).to_multiset(),
            r.0@.len() == activities@.len(),
            r.1@.len() == activities@.len(),
            forall|i: int| 0 <= i < activities@.len() ==> (#[trigger] r.1@[i]).0@ == activities@[i].task_id@
                && r.1@[i].1 == activities@[i].sequence,
    {
        let mut osv = task_id_list(activities);
        let index = canonical_index(activities);
        shuffle_strings(&mut osv, rng);
        proof {
            assert(views(osv@).to_multiset().len() == views(osv@).len());
            assert(task_ids(activities@).to_multiset().len() == task_ids(activities@).len());
        }
        (osv, index)
    }

    /// For each activity, one of its candidates drawn at random.
    fn create_random_mav(activities: &[ActivityInfo], rng: &mut StdRng) -> (r: Vec<String>)
        ensures
            r@.len() == activities@.len(),
            mav_fits(r@, activities@),
    {
        let mut r: Vec<String> = Vec::new();
        let mut i: usize = 0;
        while i < activities.len()
            invariant
                i <= activities@.len(),
                r@.len() == i,
                forall|k: int| 0 <= k < i && activities@[k].candidates@.len() > 0
                    ==> views(activities@[k].candidates@).contains(#[trigger] r@[k]@),
            decreases activities@.len() - i,
        {
            if activities[i].candidates.len() == 0 {
                r.push(NO_RESOURCE.to_owned());
            } else {
                let c = choose_string(&activities[i].candidates, rng);
                r.push(c);
            }
            i += 1;
        }
        r
    }

    /// For each activity, the primary candidate with the least processing
    /// time assigned so far (the first on ties), or its first candidate when
    /// none is primary.
    fn create_load_balanced_mav(activities: &[ActivityInfo], resources: &[Resource]) -> (r: Vec<String>)
        requires
            activities@.len() <= u32::MAX,
        ensures
            r@.len() == activities@.len(),
            mav_fits(r@, activities@),
            forall|i: int| 0 <= i < activities@.len() && activities@[i].candidates@.len() > 0
                ==> #[trigger] balanced_choice(activities@, resources@, r@, i),
    {
        let mut loads: Vec<(String, i128)> = Vec::new();
        let mut k: usize = 0;
        while k < resources.len()
            invariant
                k <= resources@.len(),
                forall|s: int| 0 <= s < loads@.len() ==> is_primary(resources@, #[trigger] loads@[s].0@) && loads@[s].1 == 0,
                forall|q: int| 0 <= q < k && resources@[q].resource_type is Primary
                    ==> #[trigger] listed_load(loads@, resources@[q].id@),
            decreases resources@.len() - k,
        {
            if let ResourceType::Primary = resources[k].resource_type {
                let ghost before = loads@;
                loads.push((resources[k].id.clone(), 0));
                proof {
                    assert(is_primary(resources@, resources@[k as int].id@));
                    assert(loads@[before.len() as int].0@ == resources@[k as int].id@);
                    assert forall|q: int| 0 <= q < k + 1 && resources@[q].resource_type is Primary
                        implies #[trigger] listed_load(loads@, resources@[q].id@) by {
                        if q < k {
                            assert(listed_load(before, resources@[q].id@));
                            let s2 = choose|s2: int| 0 <= s2 < before.len() && before[s2].0@ == resources@[q].id@;
                            assert(loads@[s2] == before[s2]);
                        }
                    }
                }
            }
            k += 1;
        }
        proof {
            assert forall|s: int| 0 <= s < loads@.len()
                implies -(0int) * 0x8000_0000_0000_0000int <= (#[trigger] loads@[s]).1 <= (0int) * 0x8000_0000_0000_0000int
                    && (first_entry(loads@, s) ==> loads@[s].1 == assigned_load(activities@, Seq::<String>::empty(), 0, loads@[s].0@)) by {
                assert(is_primary(resources@, loads@[s].0@));
            }
            assert forall|x: Seq<char>| #[trigger] is_primary(resources@, x) implies listed_load(loads@, x) by {
                let q = choose|q: int| 0 <= q < resources@.len() && resources@[q].resource_type is Primary && #[trigger] resources@[q].id@ == x;
                assert(listed_load(loads@, resources@[q].id@));
            }
        }
        let mut r: Vec<String> = Vec::new();
        let mut i: usize = 0;
        proof {
            assert(r@ =~= Seq::<String>::empty());
        }
        while i < activities.len()
            invariant
                i <= activities@.len(),
                activities@.len() <= u32::MAX,
                r@.len() == i,
                forall|k: int| 0 <= k < i && activities@[k].candidates@.len() > 0
                    ==> views(activities@[k].candidates@).contains(#[trigger] r@[k]@),
                forall|k: int| 0 <= k < i && activities@[k].candidates@.len() > 0
                    ==> #[trigger] balanced_choice(activities@, resources@, r@, k),
                forall|s: int| 0 <= s < loads@.len() ==> is_primary(resources@, #[trigger] loads@[s].0@),
                forall|x: Seq<char>| #[trigger] is_primary(resources@, x) ==> listed_load(loads@, x),
                forall|s: int| 0 <= s < loads@.len() && first_entry(loads@, s)
                    ==> (#[trigger] loads@[s]).1 == assigned_load(activities@, r@, i as int, loads@[s].0@),
                forall|s: int| 0 <= s < loads@.len()
                    ==> -(i as int) * 0x8000_0000_0000_0000int <= (#[trigger] loads@[s]).1 <= (i as int) * 0x8000_0000_0000_0000int,
            decreases activities@.len() - i,
        {
            let act = &activities[i];
            let ghost r0 = r@;
            if act.candidates.len() == 0 {
                r.push(NO_RESOURCE.to_owned());
                proof {
                    lemma_loads_step(activities@, r0, r@, i as int, loads@, loads@, None);
                }
            } else {
                let mut best: usize = 0;
                let mut best_slot: Option<usize> = None;
                let mut c: usize = 0;
                while c < act.candidates.len()
                    invariant
                        c <= act.candidates@.len(),
                        *act == activities@[i as int],
                        act.candidates@.len() > 0,
                        best < act.candidates@.len(),
                        forall|x: Seq<char>| #[trigger] is_primary(resources@, x) ==> listed_load(loads@, x),
                        forall|s: int| 0 <= s < loads@.len() ==> is_primary(resources@, #[trigger] loads@[s].0@),
                        best_slot is None ==> best == 0,
                        best_slot is None ==> forall|c2: int| 0 <= c2 < c ==> !#[trigger] is_primary(resources@, act.candidates@[c2]@),
                        best_slot matches Some(b) ==> {
                            &&& b < loads@.len()
                            &&& first_entry(loads@, b as int)
                            &&& loads@[b as int].0@ == act.candidates@[best as int]@
                            &&& best < c
                            &&& is_primary(resources@, act.candidates@[best as int]@)
                            &&& forall|c2: int| 0 <= c2 < c && is_primary(resources@, act.candidates@[c2]@)
                                ==> loads@[b as int].1 <= #[trigger] slot_load(loads@, act.candidates@[c2]@)
                            &&& forall|c2: int| 0 <= c2 < best && is_primary(resources@, act.candidates@[c2]@)
                                ==> loads@[b as int].1 < #[trigger] slot_load(loads@, act.candidates@[c2]@)
                        },
                    decreases act.candidates@.len() - c,
                {
                    let found = find_load(&loads, &act.candidates[c]);
                    proof {
                        lemma_find_load(loads@, act.candidates@[c as int]@, found);
                    }
                    if let Some(s) = found {
                        let better = match best_slot {
                            None => true,
                            Some(b) => loads[s].1 < loads[b].1,
                        };
                        if better {
                            best = c;
                            best_slot = Some(s);
                        }
                    }
                    c += 1;
                }
                let ghost l0 = loads@;
                if let Some(s) = best_slot {
                    let id = loads[s].0.clone();
                    proof {
                        assert((i as int) * 0x8000_0000_0000_0000int <= 0x1_0000_0000int * 0x8000_0000_0000_0000int) by (nonlinear_arith)
                            requires i <= 0x1_0000_0000int;
                    }
                    let v = loads[s].1 + act.process_time_ms as i128;
                    loads.set(s, (id, v));
                    proof {
                        assert forall|x: Seq<char>| #[trigger] is_primary(resources@, x) implies listed_load(loads@, x) by {
                            assert(listed_load(l0, x));
                            let w = choose|w: int| 0 <= w < l0.len() && l0[w].0@ == x;
                            assert(loads@[w].0@ == l0[w].0@);
                        }
                        assert forall|t: int| 0 <= t < loads@.len() implies is_primary(resources@, #[trigger] loads@[t].0@) by {
                            assert(loads@[t].0@ == l0[t].0@);
                        }
                        assert forall|t: int| 0 <= t < loads@.len()
                            implies -((i + 1) as int) * 0x8000_0000_0000_0000int <= (#[trigger] loads@[t]).1
                                <= ((i + 1) as int) * 0x8000_0000_0000_0000int by {
                            assert(l0[t].0@ == l0[t].0@);
                            assert(-(i as int) * 0x8000_0000_0000_0000int <= l0[t].1 <= (i as int) * 0x8000_0000_0000_0000int);
                        }
                    }
                }
                r.push(act.candidates[best].clone());
                proof {
                    assert(views(act.candidates@)[best as int] == r@[i as int]@);
                    lemma_loads_step(activities@, r0, r@, i as int, l0, loads@, best_slot);
                    if best_slot is None {
                        assert forall|c2: int| 0 <= c2 < act.candidates@.len() implies !#[trigger] is_primary(resources@, act.candidates@[c2]@) by {}
                        assert(r@[i as int]@ == act.candidates@[0]@);
                    } else {
                        let b = best_slot->0 as int;
                        assert forall|c2: int| 0 <= c2 < act.candidates@.len() && is_primary(resources@, act.candidates@[c2]@)
                            implies assigned_load(activities@, r@, i as int, act.candidates@[best as int]@)
                                <= assigned_load(activities@, r@, i as int, act.candidates@[c2]@) by {
                            lemma_slot_load(l0, activities@, r0, i as int, act.candidates@[c2]@);
                            lemma_assigned_prefix(activities@, r0, r@, i as int, act.candidates@[c2]@);
                            lemma_assigned_prefix(activities@, r0, r@, i as int, act.candidates@[best as int]@);
                        }
                        assert forall|c2: int| 0 <= c2 < best && is_primary(resources@, act.candidates@[c2]@)
                            implies assigned_load(activities@, r@, i as int, act.candidates@[c2]@)
                                > assigned_load(activities@, r@, i as int, act.candidates@[best as int]@) by {
                            lemma_slot_load(l0, activities@, r0, i as int, act.candidates@[c2]@);
                            lemma_assigned_prefix(activities@, r0, r@, i as int, act.candidates@[c2]@);
                            lemma_assigned_prefix(activities@, r0, r@, i as int, act.candidates@[best as int]@);
                        }
                        assert(balanced_choice(activities@, resources@, r@, i as int)) by {
                            assert(is_primary(resources@, act.candidates@[best as int]@));
                        }
                    }
                }
            }
            proof {
                assert forall|k: int| 0 <= k < i + 1 && activities@[k].candidates@.len() > 0
                    implies #[trigger] balanced_choice(activities@, resources@, r@, k) by {
                    if k < i {
                        lemma_choice_prefix(activities@, resources@, r0, r@, k);
                    }
                }
            }
            i += 1;
        }
        r
    }

    /// The `(task id, k)` pair of each OSV entry: its task and the number of
    /// occurrences of that task up to and including it.
    pub fn decode_osv(&self) -> (r: Vec<(String, i32)>)
        requires
            self.osv@.len() <= i32::MAX,
        ensures
            r@.len() == self.osv@.len(),
            forall|i: int| 0 <= i < r@.len() ==> (#[trigger] r@[i]).0@ == self.osv@[i]@
                && r@[i].1 == occurrences(self.osv@, i + 1, self.osv@[i]@),
    {
        let mut r: Vec<(String, i32)> = Vec::new();
        let mut i: usize = 0;
        while i < self.osv.len()
            invariant
                i <= self.osv@.len(),
                self.osv@.len() <= i32::MAX,
                r@.len() == i,
                forall|k: int| 0 <= k < i ==> (#[trigger] r@[k]).0@ == self.osv@[k]@
                    && r@[k].1 == occurrences(self.osv@, k + 1, self.osv@[k]@),
            decreases self.osv@.len() - i,
        {
            let x = &self.osv[i];
            let mut n: i32 = 0;
            let mut k: usize = 0;
            while k <= i
                invariant
                    k <= i + 1,
                    i < self.osv@.len(),
                    self.osv@.len() <= i32::MAX,
                    *x == self.osv@[i as int],
                    n == occurrences(self.osv@, k as int, x@),
                    n <= k,
                decreases i + 1 - k,
            {
                proof {
                    assert(views(self.osv@.subrange(0, k + 1)) =~= views(self.osv@.subrange(0, k as int)).push(self.osv@[k as int]@));
                }
                if self.osv[k] == *x {
                    n += 1;
                }
                k += 1;
            }
            r.push((x.clone(), n));
            i += 1;
        }
        r
    }

    /// The resource that the MAV gives to activity `(task_id, sequence)`.
    pub fn get_assigned_resource(&self, task_id: &str, sequence: i32) -> (r: Option<&String>)
        ensures
            r matches Some(s) ==> exists|i: int| #[trigger] first_key(self.activity_index@, task_id@, sequence, i)
                && i < self.mav@.len() && self.mav@[i] == *s,
            r is None ==> !has_key(self.activity_index@, task_id@, sequence) || exists|i: int|
                #[trigger] first_key(self.activity_index@, task_id@, sequence, i) && i >= self.mav@.len(),
    {
        let found = find_activity(&self.activity_index, task_id, sequence);
        proof {
            lemma_first_key_unique(self.activity_index@, task_id@, sequence, found);
        }
        match found {
            Some(i) => {
                if i < self.mav.len() {
                    Some(&self.mav[i])
                } else {
                    None
                }
            },
            None => None,
        }
    }

    /// Gives a resource to activity `(task_id, sequence)` when the index knows it.
    pub fn set_resource(&mut self, task_id: &str, sequence: i32, resource_id: String)
        ensures
            final(self).osv == old(self).osv,
            final(self).activity_index == old(self).activity_index,
            final(self).fitness == old(self).fitness,
            final(self).mav@.len() == old(self).mav@.len(),
            forall|i: int| #[trigger] first_key(old(self).activity_index@, task_id@, sequence, i) && i < old(self).mav@.len()
                ==> final(self).mav@ == old(self).mav@.update(i, resource_id),
            (!has_key(old(self).activity_index@, task_id@, sequence) || exists|i: int|
                #[trigger] first_key(old(self).activity_index@, task_id@, sequence, i) && i >= old(self).mav@.len())
                ==> final(self).mav@ == old(self).mav@,
    {
        let found = find_activity(&self.activity_index, task_id, sequence);
        proof {
            lemma_first_key_unique(self.activity_index@, task_id@, sequence, found);
        }
        if let Some(i) = found {
            if i < self.mav.len() {
                self.mav.set(i, resource_id);
            }
        }
    }

    /// Whether the genome satisfies the validity predicate for the activities.
    pub fn is_valid(&self, activities: &[ActivityInfo]) -> (r: bool)
        ensures
            r == self.valid_for(activities@),
    {
        if self.osv.len() != activities.len() || self.mav.len() != activities.len() {
            return false;
        }
        let expected = task_id_list(activities);
        let mut i: usize = 0;
        while i < self.osv.len()
            invariant
                i <= self.osv@.len(),
                views(expected@) == task_ids(activities@),
                forall|k: int| 0 <= k < i ==> views(self.osv@).to_multiset().count(#[trigger] views(self.osv@)[k])
                    == views(expected@).to_multiset().count(views(self.osv@)[k]),
            decreases self.osv@.len() - i,
        {
            if count_text(&self.osv, &self.osv[i]) != count_text(&expected, &self.osv[i]) {
                return false;
            }
            i += 1;
        }
        let mut i: usize = 0;
        while i < expected.len()
            invariant
                i <= expected@.len(),
                views(expected@) == task_ids(activities@),
                forall|k: int| 0 <= k < self.osv@.len() ==> views(self.osv@).to_multiset().count(#[trigger] views(self.osv@)[k])
                    == views(expected@).to_multiset().count(views(self.osv@)[k]),
                forall|k: int| 0 <= k < i ==> views(self.osv@).to_multiset().count(#[trigger] views(expected@)[k])
                    == views(expected@).to_multiset().count(views(expected@)[k]),
            decreases expected@.len() - i,
        {
            if count_text(&self.osv, &expected[i]) != count_text(&expected, &expected[i]) {
                return false;
            }
            i += 1;
        }
        proof {
            lemma_same_counts(views(self.osv@), views(expected@));
        }
        let mut i: usize = 0;
        while i < activities.len()
            invariant
                i <= activities@.len(),
                self.mav@.len() == activities@.len(),
                forall|k: int| 0 <= k < i && activities@[k].candidates@.len() > 0
                    ==> views(activities@[k].candidates@).contains(#[trigger] self.mav@[k]@),
            decreases activities@.len() - i,
        {
            if activities[i].candidates.len() > 0 && !contains_text(&activities[i].candidates, &self.mav[i]) {
                return false;
            }
            i += 1;
        }
        true
    }
}

/// Some primary resource has the id.
pub open spec fn is_primary(res: Seq<Resource>, x: Seq<char>) -> bool {
    exists|k: int| 0 <= k < res.len() && res[k].resource_type is Primary && #[trigger] res[k].id@ == x
}

/// Processing time of the activities before `i` whose MAV entry is `x`.
pub open spec fn assigned_load(acts: Seq<ActivityInfo>, mav: Seq<String>, i: int, x: Seq<char>) -> int
    decreases i,
{
    if i <= 0 {
        0
    } else {
        assigned_load(acts, mav, i - 1, x) + if acts[i - 1].candidates@.len() > 0 && mav[i - 1]@ == x {
            acts[i - 1].process_time_ms as int
        } else {
            0
        }
    }
}

/// The MAV entry of activity `i` is its first candidate if none is primary;
/// otherwise the first primary candidate with the least load so far.
pub open spec fn balanced_choice(acts: Seq<ActivityInfo>, res: Seq<Resource>, mav: Seq<String>, i: int) -> bool {
    let cands = acts[i].candidates@;
    if !(exists|c: int| 0 <= c < cands.len() && #[trigger] is_primary(res, cands[c]@)) {
        mav[i]@ == cands[0]@
    } else {
        exists|c: int|
            0 <= c < cands.len() && #[trigger] is_primary(res, cands[c]@) && mav[i]@ == cands[c]@
                && (forall|c2: int| 0 <= c2 < cands.len() && is_primary(res, cands[c2]@)
                    ==> assigned_load(acts, mav, i, cands[c]@) <= #[trigger] assigned_load(acts, mav, i, cands[c2]@))
                && (forall|c2: int| 0 <= c2 < c && is_primary(res, cands[c2]@)
                    ==> assigned_load(acts, mav, i, cands[c2]@) > #[trigger] assigned_load(acts, mav, i, cands[c]@))
    }
}

/// No earlier entry has the same id.
pub open spec fn first_entry(loads: Seq<(String, i128)>, s: int) -> bool {
    forall|t: int| 0 <= t < s ==> loads[t].0@ != #[trigger] loads[s].0@
}

/// Some entry has the id.
pub open spec fn listed_load(loads: Seq<(String, i128)>, x: Seq<char>) -> bool {
    exists|s: int| 0 <= s < loads.len() && loads[s].0@ == x
}

/// The load of the first entry with the id.
pub open spec fn slot_load(loads: Seq<(String, i128)>, x: Seq<char>) -> int {
    let s = choose|s: int| 0 <= s < loads.len() && loads[s].0@ == x && first_entry(loads, s);
    loads[s].1 as int
}

proof fn lemma_first_unique(loads: Seq<(String, i128)>, a: int, b: int)
    requires
        0 <= a < loads.len(),
        0 <= b < loads.len(),
        first_entry(loads, a),
        first_entry(loads, b),
        loads[a].0@ == loads[b].0@,
    ensures
        a == b,
{
    if a < b {
        assert(loads[a].0@ != loads[b].0@);
    } else if b < a {
        assert(loads[b].0@ != loads[a].0@);
    }
}

/// An entry's id has a first entry, at or before it.
proof fn lemma_first_of(loads: Seq<(String, i128)>, s: int) -> (f: int)
    requires
        0 <= s < loads.len(),
    ensures
        0 <= f <= s,
        first_entry(loads, f),
        loads[f].0@ == loads[s].0@,
    decreases s,
{
    if first_entry(loads, s) {
        s
    } else {
        let t = choose|t: int| 0 <= t < s && loads[t].0@ == #[trigger] loads[s].0@;
        lemma_first_of(loads, t)
    }
}

proof fn lemma_find_load(loads: Seq<(String, i128)>, x: Seq<char>, r: Option<usize>)
    requires
        r matches Some(i) ==> i < loads.len() && loads[i as int].0@ == x && first_entry(loads, i as int),
        r is None ==> forall|k: int| 0 <= k < loads.len() ==> loads[k].0@ != x,
    ensures
        r matches Some(i) ==> slot_load(loads, x) == loads[i as int].1 && listed_load(loads, x),
        r is None ==> !listed_load(loads, x),
{
    if let Some(i) = r {
        let s = choose|s: int| 0 <= s < loads.len() && loads[s].0@ == x && first_entry(loads, s);
        lemma_first_unique(loads, s, i as int);
    }
}

/// The load of the first entry of an id is the load assigned to it.
proof fn lemma_slot_load(loads: Seq<(String, i128)>, acts: Seq<ActivityInfo>, mav: Seq<String>, i: int, x: Seq<char>)
    requires
        listed_load(loads, x),
        forall|s: int| 0 <= s < loads.len() && first_entry(loads, s)
            ==> (#[trigger] loads[s]).1 == assigned_load(acts, mav, i, loads[s].0@),
    ensures
        slot_load(loads, x) == assigned_load(acts, mav, i, x),
{
    let s0 = choose|s: int| 0 <= s < loads.len() && loads[s].0@ == x;
    let s = lemma_first_of(loads, s0);
    let c = choose|c: int| 0 <= c < loads.len() && loads[c].0@ == x && first_entry(loads, c);
    lemma_first_unique(loads, s, c);
}

proof fn lemma_assigned_prefix(acts: Seq<ActivityInfo>, m1: Seq<String>, m2: Seq<String>, i: int, x: Seq<char>)
    requires
        0 <= i <= m1.len(),
        i <= m2.len(),
        forall|k: int| 0 <= k < i ==> m1[k] == m2[k],
    ensures
        assigned_load(acts, m1, i, x) == assigned_load(acts, m2, i, x),
    decreases i,
{
    if i > 0 {
        lemma_assigned_prefix(acts, m1, m2, i - 1, x);
    }
}

proof fn lemma_choice_prefix(acts: Seq<ActivityInfo>, res: Seq<Resource>, m1: Seq<String>, m2: Seq<String>, k: int)
    requires
        0 <= k < m1.len(),
        m1.len() <= m2.len(),
        forall|j: int| 0 <= j < m1.len() ==> m1[j] == m2[j],
        balanced_choice(acts, res, m1, k),
    ensures
        balanced_choice(acts, res, m2, k),
{
    assert forall|x: Seq<char>| assigned_load(acts, m1, k, x) == #[trigger] assigned_load(acts, m2, k, x) by {
        lemma_assigned_prefix(acts, m1, m2, k, x);
    }
    assert(m2[k] == m1[k]);
    let cands = acts[k].candidates@;
    if exists|c: int| 0 <= c < cands.len() && #[trigger] is_primary(res, cands[c]@) {
        let c = choose|c: int|
            0 <= c < cands.len() && #[trigger] is_primary(res, cands[c]@) && m1[k]@ == cands[c]@
                && (forall|c2: int| 0 <= c2 < cands.len() && is_primary(res, cands[c2]@)
                    ==> assigned_load(acts, m1, k, cands[c]@) <= #[trigger] assigned_load(acts, m1, k, cands[c2]@))
                && (forall|c2: int| 0 <= c2 < c && is_primary(res, cands[c2]@)
                    ==> assigned_load(acts, m1, k, cands[c2]@) > #[trigger] assigned_load(acts, m1, k, cands[c]@));
        assert forall|c2: int| 0 <= c2 < cands.len() && is_primary(res, cands[c2]@)
            implies assigned_load(acts, m2, k, cands[c]@) <= #[trigger] assigned_load(acts, m2, k, cands[c2]@) by {
            assert(assigned_load(acts, m1, k, cands[c]@) <= assigned_load(acts, m1, k, cands[c2]@));
            assert(assigned_load(acts, m1, k, cands[c2]@) == assigned_load(acts, m2, k, cands[c2]@));
            assert(assigned_load(acts, m1, k, cands[c]@) == assigned_load(acts, m2, k, cands[c]@));
        }
        assert forall|c2: int| 0 <= c2 < c && is_primary(res, cands[c2]@)
            implies assigned_load(acts, m2, k, cands[c2]@) > #[trigger] assigned_load(acts, m2, k, cands[c]@) by {
            assert(assigned_load(acts, m1, k, cands[c2]@) > assigned_load(acts, m1, k, cands[c]@));
            assert(assigned_load(acts, m1, k, cands[c2]@) == assigned_load(acts, m2, k, cands[c2]@));
            assert(assigned_load(acts, m1, k, cands[c]@) == assigned_load(acts, m2, k, cands[c]@));
        }
        assert(is_primary(res, cands[c]@) && m2[k]@ == cands[c]@);
    }
}

/// One step of load bookkeeping: the entry of the chosen id gains the
/// activity's processing time, and the first entries keep matching the
/// assigned loads.
proof fn lemma_loads_step(
    acts: Seq<ActivityInfo>,
    r0: Seq<String>,
    r1: Seq<String>,
    i: int,
    l0: Seq<(String, i128)>,
    l1: Seq<(String, i128)>,
    chosen: Option<usize>,
)
    requires
        0 <= i < acts.len(),
        r0.len() == i,
        r1 == r0.push(r1[i]),
        forall|s: int| 0 <= s < l0.len() && first_entry(l0, s)
            ==> (#[trigger] l0[s]).1 == assigned_load(acts, r0, i, l0[s].0@),
        l1.len() == l0.len(),
        forall|s: int| 0 <= s < l0.len() ==> (#[trigger] l1[s]).0@ == l0[s].0@,
        chosen matches Some(b) ==> b < l0.len() && first_entry(l0, b as int) && l0[b as int].0@ == r1[i]@
            && acts[i].candidates@.len() > 0
            && l1[b as int].1 == l0[b as int].1 + acts[i].process_time_ms
            && forall|s: int| 0 <= s < l0.len() && s != b ==> l1[s] == l0[s],
        chosen is None ==> l1 == l0 && (acts[i].candidates@.len() == 0
            || forall|s: int| 0 <= s < l0.len() ==> l0[s].0@ != r1[i]@),
    ensures
        forall|s: int| 0 <= s < l1.len() && first_entry(l1, s)
            ==> (#[trigger] l1[s]).1 == assigned_load(acts, r1, i + 1, l1[s].0@),
{
    assert forall|s: int| 0 <= s < l1.len() && first_entry(l1, s)
        implies (#[trigger] l1[s]).1 == assigned_load(acts, r1, i + 1, l1[s].0@) by {
        assert(first_entry(l0, s)) by {
            assert forall|t: int| 0 <= t < s implies l0[t].0@ != #[trigger] l0[s].0@ by {
                assert(l1[t].0@ != l1[s].0@);
            }
        }
        lemma_assigned_prefix(acts, r0, r1, i, l0[s].0@);
        if let Some(b) = chosen {
            if s != b {
                if l0[s].0@ == r1[i]@ {
                    lemma_first_unique(l0, s, b as int);
                }
            }
        }
    }
}

/// `(task id, sequence)` of each activity, in canonical order.
pub fn canonical_index(activities: &[ActivityInfo]) -> (r: Vec<(String, i32)>)
    ensures
        r@.len() == activities@.len(),
        forall|i: int| 0 <= i < activities@.len() ==> (#[trigger] r@[i]).0@ == activities@[i].task_id@
            && r@[i].1 == activities@[i].sequence,
{
    let mut index: Vec<(String, i32)> = Vec::new();
    let mut i: usize = 0;
    while i < activities.len()
        invariant
            i <= activities@.len(),
            index@.len() == i,
            forall|k: int| 0 <= k < i ==> (#[trigger] index@[k]).0@ == activities@[k].task_id@
                && index@[k].1 == activities@[k].sequence,
        decreases activities@.len() - i,
    {
        index.push((activities[i].task_id.clone(), activities[i].sequence));
        i += 1;
    }
    index
}

/// A copy of a list of strings.
pub fn copy_strings(v: &Vec<String>) -> (r: Vec<String>)
    ensures
        r@ == v@,
{
    let mut r: Vec<String> = Vec::new();
    let mut i: usize = 0;
    while i < v.len()
        invariant
            i <= v@.len(),
            r@ =~= v@.subrange(0, i as int),
        decreases v@.len() - i,
    {
        r.push(v[i].clone());
        i += 1;
    }
    proof {
        assert(v@.subrange(0, i as int) =~= v@);
    }
    r
}

/// Position of the first entry of the index for `(task_id, sequence)`.
/// Entry `i` of the index is the first for `(task, sequence)`.
pub open spec fn first_key(index: Seq<(String, i32)>, task: Seq<char>, sequence: i32, i: int) -> bool {
    &&& 0 <= i < index.len()
    &&& index[i].0@ == task && index[i].1 == sequence
    &&& forall|d: int| 0 <= d < i ==> !(index[d].0@ == task && index[d].1 == sequence)
}

/// Some entry of the index is for `(task, sequence)`.
pub open spec fn has_key(index: Seq<(String, i32)>, task: Seq<char>, sequence: i32) -> bool {
    exists|i: int| 0 <= i < index.len() && index[i].0@ == task && #[trigger] index[i].1 == sequence
}

proof fn lemma_first_key_unique(index: Seq<(String, i32)>, task: Seq<char>, sequence: i32, r: Option<usize>)
    requires
        r matches Some(i) ==> first_key(index, task, sequence, i as int),
        r is None ==> !has_key(index, task, sequence),
    ensures
        forall|i: int| #[trigger] first_key(index, task, sequence, i) ==> r == Some(i as usize),
{
    assert forall|i: int| #[trigger] first_key(index, task, sequence, i) implies r == Some(i as usize) by {
        assert(has_key(index, task, sequence)) by {
            assert(index[i].1 == sequence);
        }
        let k = r->0 as int;
        if k < i {
            assert(!(index[k].0@ == task && index[k].1 == sequence));
        } else if k > i {
            assert(!(index[i].0@ == task && index[i].1 == sequence));
        }
    }
}

fn find_activity(index: &Vec<(String, i32)>, task_id: &str, sequence: i32) -> (r: Option<usize>)
    ensures
        r matches Some(i) ==> first_key(index@, task_id@, sequence, i as int),
        r is None ==> !has_key(index@, task_id@, sequence),
{
    let mut i: usize = 0;
    while i < index.len()
        invariant
            i <= index@.len(),
            forall|d: int| 0 <= d < i ==> !(index@[d].0@ == task_id@ && index@[d].1 == sequence),
        decreases index@.len() - i,
    {
        if index[i].1 == sequence && same_text(&index[i].0, task_id) {
            return Some(i);
        }
        i += 1;
    }
    None
}

/// Position of the first load entry of the resource.
fn find_load(loads: &Vec<(String, i128)>, id: &String) -> (r: Option<usize>)
    ensures
        r matches Some(i) ==> i < loads@.len() && loads@[i as int].0@ == id@ && first_entry(loads@, i as int),
        r is None ==> forall|k: int| 0 <= k < loads@.len() ==> loads@[k].0@ != id@,
{
    let mut i: usize = 0;
    while i < loads.len()
        invariant
            i <= loads@.len(),
            forall|k: int| 0 <= k < i ==> loads@[k].0@ != id@,
        decreases loads@.len() - i,
    {
        if loads[i].0 == *id {
            return Some(i);
        }
        i += 1;
    }
    None
}

/// The processing time of an activity on a resource, from the latest entry.
pub fn lookup_time(times: &Vec<ProcessTime>, activity_id: &String, resource_id: &String) -> (r: i64)
    ensures
        r == time_of(times@, activity_id@, resource_id@),
{
    let mut i: usize = times.len();
    proof {
        assert(times@.subrange(0, i as int) =~= times@);
    }
    while i > 0
        invariant
            i <= times@.len(),
            time_entry(times@, activity_id@, resource_id@) == time_entry(times@.subrange(0, i as int), activity_id@, resource_id@),
        decreases i,
    {
        proof {
            assert(times@.subrange(0, i as int).drop_last() =~= times@.subrange(0, i - 1));
        }
        if times[i - 1].activity_id == *activity_id && times[i - 1].resource_id == *resource_id {
            return times[i - 1].time_ms;
        }
        i -= 1;
    }
    i64::MAX
}

/// The entry pairs an activity with one of its candidates and its time.
pub open spec fn entry_from(acts: Seq<ActivityInfo>, e: ProcessTime) -> bool {
    exists|i: int, c: int|
        0 <= i < acts.len() && 0 <= c < acts[i].candidates@.len() && #[trigger] entry_matches(acts[i], c, e)
}

pub open spec fn entry_matches(a: ActivityInfo, c: int, e: ProcessTime) -> bool {
    e.activity_id@ == a.activity_id@ && e.resource_id@ == a.candidates@[c]@ && e.time_ms == a.process_time_ms
}

/// The processing-time table of the activities: one entry per activity and
/// candidate, in order, with the activity's processing time.
pub open spec fn process_table(acts: Seq<ActivityInfo>) -> Seq<ProcessTime>
    decreases acts.len(),
{
    if acts.len() == 0 {
        Seq::empty()
    } else {
        process_table(acts.drop_last()) + entries_of(acts.last(), acts.last().candidates@.len() as int)
    }
}

/// The table entries of the first `n` candidates of one activity.
pub open spec fn entries_of(a: ActivityInfo, n: int) -> Seq<ProcessTime> {
    Seq::new(n as nat, |c: int| ProcessTime { activity_id: a.activity_id, resource_id: a.candidates@[c], time_ms: a.process_time_ms })
}

/// One entry per activity and candidate, with the activity's processing time.
pub fn build_process_times(activities: &[ActivityInfo]) -> (r: Vec<ProcessTime>)
    ensures
        r@ == process_table(activities@),
        forall|k: int| 0 <= k < r@.len() ==> #[trigger] entry_from(activities@, r@[k]),
{
    let mut r: Vec<ProcessTime> = Vec::new();
    let mut i: usize = 0;
    while i < activities.len()
        invariant
            i <= activities@.len(),
            r@ == process_table(activities@.subrange(0, i as int)),
            forall|k: int| 0 <= k < r@.len() ==> #[trigger] entry_from(activities@, r@[k]),
        decreases activities@.len() - i,
    {
        let act = &activities[i];
        let ghost r0 = r@;
        let mut c: usize = 0;
        while c < act.candidates.len()
            invariant
                i < activities@.len(),
                *act == activities@[i as int],
                c <= act.candidates@.len(),
                r@ == r0 + entries_of(*act, c as int),
                forall|k: int| 0 <= k < r@.len() ==> #[trigger] entry_from(activities@, r@[k]),
            decreases act.candidates@.len() - c,
        {
            let e = ProcessTime {
                activity_id: act.activity_id.clone(),
                resource_id: act.candidates[c].clone(),
                time_ms: act.process_time_ms,
            };
            proof {
                assert(entry_matches(activities@[i as int], c as int, e));
            }
            let ghost old_r = r@;
            r.push(e);
            proof {
                assert forall|k: int| 0 <= k < r@.len() implies #[trigger] entry_from(activities@, r@[k]) by {
                    if k < old_r.len() {
                        assert(r@[k] == old_r[k]);
                    }
                }
                assert(r@ =~= r0 + entries_of(*act, c + 1));
            }
            c += 1;
        }
        proof {
            assert(activities@.subrange(0, i + 1).drop_last() =~= activities@.subrange(0, i as int));
            assert(activities@.subrange(0, i + 1).last() == *act);
        }
        i += 1;
    }
    proof {
        assert(activities@.subrange(0, i as int) =~= activities@);
    }
    r
}

} // verus!

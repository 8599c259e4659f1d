//! Candidate solutions as the search core sees them: an ordered stop
//! sequence per vehicle route, a set of required (unassigned) jobs, a
//! registry of vehicles available for reuse, and externally computed cost
//! data. Jobs and vehicles are plain identifiers; a job spans as many stops
//! as its identifier occurs in a tour.

use vstd::prelude::*;
use crate::dominance::DominanceOrder;

verus! {

/// Mathematical model of one route.
pub ghost struct RouteModel {
    /// The vehicle that runs the tour.
    pub vehicle: u64,
    /// Job identifier of each stop, in visiting order.
    pub tour: Seq<u64>,
}

/// Mathematical model of one candidate solution.
pub ghost struct SolutionModel {
    /// Active routes, each exclusively owned by this solution.
    pub routes: Seq<RouteModel>,
    /// Jobs currently assigned to no route.
    pub required: Seq<u64>,
    /// Vehicles available for reuse by the external rebuild step.
    pub registry: Seq<u64>,
    /// Externally computed scalar cost; lower is better.
    pub cost: u64,
    /// Externally computed objective vector, in fixed-point form.
    pub fitness: Seq<u64>,
    /// Cached dominance rank, if one was computed since the last change.
    pub order: Option<DominanceOrder>,
}

/// One vehicle's ordered stop sequence.
pub struct RouteState {
    /// The vehicle that runs the tour.
    pub vehicle: u64,
    /// Job identifier of each stop, in visiting order.
    pub tour: Vec<u64>,
}

impl View for RouteState {
    type V = RouteModel;

    open spec fn view(&self) -> RouteModel {
        RouteModel { vehicle: self.vehicle, tour: self.tour@ }
    }
}

impl RouteState {
    /// How many stops the route has.
    pub open spec fn spec_activity_count(self) -> int {
        self@.tour.len() as int
    }

    /// Builds a route for a vehicle over the given stops.
    pub fn new(vehicle: u64, tour: Vec<u64>) -> (r: Self)
        ensures
            r@.vehicle == vehicle,
            r@.tour == tour@,
    {
        RouteState { vehicle, tour }
    }

    /// How many stops the route has.
    pub fn activity_count(&self) -> (r: usize)
        ensures
            r == self.spec_activity_count(),
    {
        self.tour.len()
    }

    /// An owned copy of the route, so that a retained solution and an
    /// in-flight mutated one never alias.
    pub fn duplicate(&self) -> (r: Self)
        ensures
            r@ == self@,
    {
        RouteState { vehicle: self.vehicle, tour: duplicate_ids(&self.tour) }
    }
}

/// A candidate job-to-route assignment with its evaluated cost.
pub struct Solution {
    /// Active routes.
    pub routes: Vec<RouteState>,
    /// Jobs assigned to no route.
    pub required: Vec<u64>,
    /// Vehicles available for reuse.
    pub registry: Vec<u64>,
    /// Externally computed scalar cost; lower is better.
    pub cost: u64,
    /// Externally computed objective vector, in fixed-point form.
    pub fitness: Vec<u64>,
    /// Cached dominance rank, if any.
    pub order: Option<DominanceOrder>,
}

impl View for Solution {
    type V = SolutionModel;

    open spec fn view(&self) -> SolutionModel {
        SolutionModel {
            routes: self.routes@.map_values(|r: RouteState| r@),
            required: self.required@,
            registry: self.registry@,
            cost: self.cost,
            fitness: self.fitness@,
            order: self.order,
        }
    }
}

impl Solution {
    /// Builds a solution from its parts, with no cached dominance rank.
    pub fn new(routes: Vec<RouteState>, required: Vec<u64>, registry: Vec<u64>, cost: u64) -> (r:
        Self)
        ensures
            r@.routes == routes@.map_values(|rt: RouteState| rt@),
            r@.required == required@,
            r@.registry == registry@,
            r@.cost == cost,
            r@.fitness == Seq::<u64>::empty(),
            r@.order is None,
    {
        let s = Solution { routes, required, registry, cost, fitness: Vec::new(), order: None };
        proof {
            assert(s@.fitness =~= Seq::<u64>::empty());
        }
        s
    }

    /// An owned deep copy: a population's retained member and the copy that
    /// the ruin step mutates never share storage.
    pub fn duplicate(&self) -> (r: Self)
        ensures
            r@ == self@,
    {
        let mut routes: Vec<RouteState> = Vec::new();
        let mut i: usize = 0;
        while i < self.routes.len()
            invariant
                i <= self.routes@.len(),
                routes@.map_values(|r: RouteState| r@) == self.routes@.take(i as int).map_values(
                    |r: RouteState| r@,
                ),
            decreases self.routes@.len() - i,
        {
            routes.push(self.routes[i].duplicate());
            proof {
                assert(self.routes@.take(i + 1).map_values(|r: RouteState| r@)
                    =~= self.routes@.take(i as int).map_values(|r: RouteState| r@).push(
                    self.routes@[i as int]@,
                ));
            }
            i = i + 1;
        }
        proof {
            assert(self.routes@.take(self.routes@.len() as int) =~= self.routes@);
        }
        let r = Solution {
            routes,
            required: duplicate_ids(&self.required),
            registry: duplicate_ids(&self.registry),
            cost: self.cost,
            fitness: duplicate_ids(&self.fitness),
            order: self.order,
        };
        proof {
            assert(r@ =~= self@);
        }
        r
    }

    /// Records the externally computed cost data, invalidating any cached
    /// dominance rank: a stale rank must never be read after re-evaluation.
    pub fn set_evaluation(&mut self, cost: u64, fitness: Vec<u64>)
        ensures
            final(self)@ == (SolutionModel { cost, fitness: fitness@, order: None, ..old(self)@ }),
    {
        self.cost = cost;
        self.fitness = fitness;
        self.order = None;
    }

    /// The cached dominance rank, if one is current.
    pub fn get_order(&self) -> (r: Option<&DominanceOrder>)
        ensures
            match r {
                Some(o) => self@.order == Some(*o),
                None => self@.order is None,
            },
    {
        self.order.as_ref()
    }

    /// Caches a freshly computed dominance rank.
    pub fn set_order(&mut self, order: DominanceOrder)
        ensures
            final(self)@ == (SolutionModel { order: Some(order), ..old(self)@ }),
    {
        self.order = Some(order);
    }

    /// The feature vector a self-organizing population projects from: the
    /// fixed-point objective vector as it stands.
    pub fn weights(&self) -> (r: Vec<u64>)
        ensures
            r@ == self@.fitness,
    {
        duplicate_ids(&self.fitness)
    }
}

/// An owned copy of a vector of plain identifiers.
pub fn duplicate_ids(v: &Vec<u64>) -> (r: Vec<u64>)
    ensures
        r@ == v@,
{
    let mut out: Vec<u64> = Vec::new();
    let mut i: usize = 0;
    while i < v.len()
        invariant
            i <= v@.len(),
            out@ == v@.take(i as int),
        decreases v@.len() - i,
    {
        out.push(v[i]);
        proof {
            assert(v@.take(i + 1) =~= v@.take(i as int).push(v@[i as int]));
        }
        i = i + 1;
    }
    proof {
        assert(v@.take(v@.len() as int) =~= v@);
    }
    out
}

/// How many stops of the tour belong to the given job.
pub open spec fn tour_count(tour: Seq<u64>, job: u64) -> int
    decreases tour.len(),
{
    if tour.len() == 0 {
        0
    } else {
        tour_count(tour.drop_last(), job) + if tour.last() == job {
            1int
        } else {
            0int
        }
    }
}

/// The tour with every stop of the given job taken out, order kept.
pub open spec fn remove_job(tour: Seq<u64>, job: u64) -> Seq<u64>
    decreases tour.len(),
{
    if tour.len() == 0 {
        Seq::empty()
    } else if tour.last() == job {
        remove_job(tour.drop_last(), job)
    } else {
        remove_job(tour.drop_last(), job).push(tour.last())
    }
}

/// The distinct jobs of the tour, in order of first appearance.
pub open spec fn distinct_jobs(tour: Seq<u64>) -> Seq<u64>
    decreases tour.len(),
{
    if tour.len() == 0 {
        Seq::empty()
    } else {
        let d = distinct_jobs(tour.drop_last());
        if d.contains(tour.last()) {
            d
        } else {
            d.push(tour.last())
        }
    }
}

/// Removing a job shortens the tour by exactly that job's stop count.
pub proof fn lemma_remove_job_len(tour: Seq<u64>, job: u64)
    ensures
        remove_job(tour, job).len() == tour.len() - tour_count(tour, job),
        0 <= tour_count(tour, job) <= tour.len(),
    decreases tour.len(),
{
    if tour.len() > 0 {
        lemma_remove_job_len(tour.drop_last(), job);
    }
}

/// A tour contains a job exactly when the job's stop count is positive.
pub proof fn lemma_tour_count_contains(tour: Seq<u64>, job: u64)
    ensures
        tour_count(tour, job) > 0 <==> tour.contains(job),
    decreases tour.len(),
{
    if tour.len() > 0 {
        lemma_tour_count_contains(tour.drop_last(), job);
        lemma_remove_job_len(tour.drop_last(), job);
        if tour.last() == job {
            assert(tour[tour.len() - 1] == job);
        }
        if tour.drop_last().contains(job) {
            let i = choose|i: int| 0 <= i < tour.drop_last().len() && tour.drop_last()[i] == job;
            assert(tour[i] == job);
        }
        if tour.last() != job && tour.contains(job) {
            let i = choose|i: int| 0 <= i < tour.len() && tour[i] == job;
            assert(tour.drop_last()[i] == job);
        }
    }
}

/// The distinct jobs of a tour are the jobs the tour contains, each once.
pub proof fn lemma_distinct_jobs_contains(tour: Seq<u64>, job: u64)
    ensures
        distinct_jobs(tour).contains(job) <==> tour.contains(job),
    decreases tour.len(),
{
    if tour.len() > 0 {
        lemma_distinct_jobs_contains(tour.drop_last(), job);
        let d = distinct_jobs(tour.drop_last());
        let e = d.push(tour.last());
        // Lift membership between the tour and its prefix.
        if tour.drop_last().contains(job) {
            let i = choose|i: int| 0 <= i < tour.drop_last().len() && tour.drop_last()[i] == job;
            assert(tour[i] == job);
        }
        if tour.last() != job && tour.contains(job) {
            let i = choose|i: int| 0 <= i < tour.len() && tour[i] == job;
            assert(tour.drop_last()[i] == job);
        }
        if tour.last() == job {
            assert(tour[tour.len() - 1] == job);
        }
        // Lift membership between `d` and `d.push(last)`.
        if d.contains(job) {
            let i = choose|i: int| 0 <= i < d.len() && d[i] == job;
            assert(e[i] == job);
        }
        if job == tour.last() {
            assert(e[d.len() as int] == job);
        }
        if e.contains(job) && job != tour.last() {
            let i = choose|i: int| 0 <= i < e.len() && e[i] == job;
            assert(i < d.len());
            assert(d[i] == job);
        }
    }
}

/// Stops across all routes of a solution.
pub open spec fn total_stops(routes: Seq<RouteModel>) -> int
    decreases routes.len(),
{
    if routes.len() == 0 {
        0
    } else {
        total_stops(routes.drop_last()) + routes.last().tour.len()
    }
}

/// A solution never has a negative stop count.
pub proof fn lemma_total_stops_nonneg(routes: Seq<RouteModel>)
    ensures
        0 <= total_stops(routes),
    decreases routes.len(),
{
    if routes.len() > 0 {
        lemma_total_stops_nonneg(routes.drop_last());
    }
}

/// Replacing one route changes the stop count by the tours' difference.
pub proof fn lemma_total_stops_update(routes: Seq<RouteModel>, i: int, route: RouteModel)
    requires
        0 <= i < routes.len(),
    ensures
        total_stops(routes.update(i, route)) == total_stops(routes) - routes[i].tour.len()
            + route.tour.len(),
    decreases routes.len(),
{
    if i == routes.len() - 1 {
        assert(routes.update(i, route).drop_last() =~= routes.drop_last());
    } else {
        assert(routes.update(i, route).drop_last() =~= routes.drop_last().update(i, route));
        lemma_total_stops_update(routes.drop_last(), i, route);
    }
}

/// Dropping one route lowers the stop count by that route's tour.
pub proof fn lemma_total_stops_remove(routes: Seq<RouteModel>, i: int)
    requires
        0 <= i < routes.len(),
    ensures
        total_stops(routes.remove(i)) == total_stops(routes) - routes[i].tour.len(),
    decreases routes.len(),
{
    if i == routes.len() - 1 {
        assert(routes.remove(i) =~= routes.drop_last());
    } else {
        assert(routes.remove(i).drop_last() =~= routes.drop_last().remove(i));
        assert(routes.remove(i).last() == routes.last());
        lemma_total_stops_remove(routes.drop_last(), i);
    }
}

/// A tour with a stop has a job.
pub proof fn lemma_distinct_jobs_nonempty(tour: Seq<u64>)
    requires
        tour.len() >= 1,
    ensures
        distinct_jobs(tour).len() >= 1,
{
    lemma_distinct_jobs_contains(tour, tour.last());
    assert(tour[tour.len() - 1] == tour.last());
    let i = choose|i: int|
        0 <= i < distinct_jobs(tour).len() && distinct_jobs(tour)[i] == tour.last();
}

/// How many stops of the tour belong to the given job.
pub fn count_job(tour: &Vec<u64>, job: u64) -> (r: usize)
    ensures
        r == tour_count(tour@, job),
{
    proof {
        lemma_remove_job_len(tour@, job);
    }
    let mut count: usize = 0;
    let mut i: usize = 0;
    while i < tour.len()
        invariant
            i <= tour@.len(),
            count == tour_count(tour@.take(i as int), job),
            count <= i,
        decreases tour@.len() - i,
    {
        proof {
            assert(tour@.take(i + 1).drop_last() =~= tour@.take(i as int));
            assert(tour@.take(i + 1).last() == tour@[i as int]);
            lemma_remove_job_len(tour@.take(i + 1), job);
        }
        if tour[i] == job {
            count = count + 1;
        }
        i = i + 1;
    }
    proof {
        assert(tour@.take(tour@.len() as int) =~= tour@);
    }
    count
}

/// The tour with every stop of the given job taken out.
pub fn remove_job_stops(tour: &Vec<u64>, job: u64) -> (r: Vec<u64>)
    ensures
        r@ == remove_job(tour@, job),
{
    let mut out: Vec<u64> = Vec::new();
    let mut i: usize = 0;
    while i < tour.len()
        invariant
            i <= tour@.len(),
            out@ == remove_job(tour@.take(i as int), job),
        decreases tour@.len() - i,
    {
        proof {
            assert(tour@.take(i + 1).drop_last() =~= tour@.take(i as int));
            assert(tour@.take(i + 1).last() == tour@[i as int]);
        }
        if tour[i] != job {
            out.push(tour[i]);
        }
        i = i + 1;
    }
    proof {
        assert(tour@.take(tour@.len() as int) =~= tour@);
    }
    out
}

/// Whether the vector holds the given identifier.
pub fn ids_contain(v: &Vec<u64>, x: u64) -> (r: bool)
    ensures
        r == v@.contains(x),
{
    let mut i: usize = 0;
    while i < v.len()
        invariant
            i <= v@.len(),
            forall|j: int| 0 <= j < i ==> v@[j] != x,
        decreases v@.len() - i,
    {
        if v[i] == x {
            return true;
        }
        i = i + 1;
    }
    false
}

/// The distinct jobs of the tour, in order of first appearance.
pub fn distinct_jobs_of(tour: &Vec<u64>) -> (r: Vec<u64>)
    ensures
        r@ == distinct_jobs(tour@),
{
    let mut out: Vec<u64> = Vec::new();
    let mut i: usize = 0;
    while i < tour.len()
        invariant
            i <= tour@.len(),
            out@ == distinct_jobs(tour@.take(i as int)),
        decreases tour@.len() - i,
    {
        proof {
            assert(tour@.take(i + 1).drop_last() =~= tour@.take(i as int));
            assert(tour@.take(i + 1).last() == tour@[i as int]);
        }
        if !ids_contain(&out, tour[i]) {
            out.push(tour[i]);
        }
        i = i + 1;
    }
    proof {
        assert(tour@.take(tour@.len() as int) =~= tour@);
    }
    out
}

} // verus!

//! Bounded stochastic destruction of a solution. One ruin pass removes jobs
//! and whole routes under three budgets — jobs, activities (physical stops)
//! and routes — that only ever shrink and never go negative. Job removal is
//! strictly bounded; route removal may, on a random override, exceed the
//! job and activity budgets, which are then floored at zero.

use vstd::prelude::*;
use crate::random::{DefaultPureRandom, Probability, PureRandom};
use crate::solution::{
    RouteModel, Solution, count_job, distinct_jobs, distinct_jobs_of, remove_job, remove_job_stops,
    tour_count,
};

verus! {

/// Parts per million of the fixed probability with which route removal may
/// override an insufficient job or activity budget, trading bounded
/// destruction for structural diversification.
pub const ROUTE_REMOVAL_OVERRIDE_PARTS: u32 = 10000;

/// Configured ceilings of one ruin pass.
#[derive(Clone, Copy, Debug, PartialEq, Eq, Structural)]
pub struct RuinLimitsEx {
    /// Most jobs one pass may remove.
    pub max_ruined_jobs: usize,
    /// Most activities (physical stops) one pass may remove.
    pub max_ruined_activities: usize,
    /// Most routes one pass may drop.
    pub max_affected_routes: usize,
}

/// Counters of one ruin pass, decremented only and never negative.
#[derive(Clone, Copy, Debug, PartialEq, Eq, Structural)]
pub struct JobRemoval {
    /// Jobs the pass may still remove.
    pub jobs_left: i32,
    /// Activities the pass may still remove.
    pub activities_left: i32,
    /// Routes the pass may still drop.
    pub routes_left: i32,
}

impl JobRemoval {
    /// The counters' invariant: none is ever observed negative.
    pub open spec fn wf(self) -> bool {
        &&& self.jobs_left >= 0
        &&& self.activities_left >= 0
        &&& self.routes_left >= 0
    }

    /// The whole given route fits into the remaining job and activity
    /// budgets.
    pub open spec fn can_remove_fully(self, route: RouteModel) -> bool {
        &&& self.jobs_left >= distinct_jobs(route.tour).len()
        &&& self.activities_left >= route.tour.len()
    }

    /// The later state spends no less of any budget than the earlier one:
    /// what every removal step promises of its counters.
    pub open spec fn no_budget_regained(self, earlier: JobRemoval) -> bool {
        &&& self.jobs_left <= earlier.jobs_left
        &&& self.activities_left <= earlier.activities_left
        &&& self.routes_left <= earlier.routes_left
    }

    /// Starts a pass with the configured limits.
    pub fn new(limits: &RuinLimitsEx) -> (r: Self)
        requires
            limits.max_ruined_jobs <= i32::MAX,
            limits.max_ruined_activities <= i32::MAX,
            limits.max_affected_routes <= i32::MAX,
        ensures
            r.wf(),
            r.jobs_left == limits.max_ruined_jobs,
            r.activities_left == limits.max_ruined_activities,
            r.routes_left == limits.max_affected_routes,
    {
        JobRemoval {
            jobs_left: limits.max_ruined_jobs as i32,
            activities_left: limits.max_ruined_activities as i32,
            routes_left: limits.max_affected_routes as i32,
        }
    }

    /// Removes one job from the given route, all of its stops or none.
    ///
    /// Succeeds exactly when the job stands in the route, a whole job is
    /// still in budget and all of the job's stops are: then every stop of
    /// the job leaves the tour, the job joins the required set, and the job
    /// and activity budgets shrink accordingly. Otherwise nothing changes.
    pub fn try_remove_job(&mut self, solution: &mut Solution, route_idx: usize, job: u64) -> (removed:
        bool)
        requires
            old(self).wf(),
            route_idx < old(solution)@.routes.len(),
        ensures
            final(self).wf(),
            final(self).jobs_left <= old(self).jobs_left,
            final(self).activities_left <= old(self).activities_left,
            final(self).routes_left == old(self).routes_left,
            removed == ({
                let cnt = tour_count(old(solution)@.routes[route_idx as int].tour, job);
                cnt >= 1 && old(self).jobs_left >= 1 && old(self).activities_left >= cnt
            }),
            !removed ==> final(solution)@ == old(solution)@ && *final(self) == *old(self),
            removed ==> ({
                let route = old(solution)@.routes[route_idx as int];
                let cnt = tour_count(route.tour, job);
                &&& final(self).jobs_left == old(self).jobs_left - 1
                &&& final(self).activities_left == old(self).activities_left - cnt
                &&& final(solution)@.routes == old(solution)@.routes.update(
                    route_idx as int,
                    (RouteModel { vehicle: route.vehicle, tour: remove_job(route.tour, job) }),
                )
                &&& final(solution)@.required == old(solution)@.required.push(job)
                &&& final(solution)@.registry == old(solution)@.registry
                &&& final(solution)@.cost == old(solution)@.cost
                &&& final(solution)@.fitness == old(solution)@.fitness
                &&& final(solution)@.order == old(solution)@.order
            }),
    {
        let cnt = count_job(&solution.routes[route_idx].tour, job);
        proof {
            crate::solution::lemma_remove_job_len(solution.routes@[route_idx as int].tour@, job);
        }
        if cnt >= 1 && self.jobs_left >= 1 && cnt <= self.activities_left as usize {
            let route = solution.routes.remove(route_idx);
            let new_tour = remove_job_stops(&route.tour, job);
            solution.routes.insert(route_idx, crate::solution::RouteState::new(route.vehicle, new_tour));
            solution.required.push(job);
            self.jobs_left = self.jobs_left - 1;
            self.activities_left = self.activities_left - cnt as i32;
            proof {
                assert(solution.routes@.map_values(|r: crate::solution::RouteState| r@)
                    =~= old(solution).routes@.map_values(|r: crate::solution::RouteState| r@).update(
                    route_idx as int,
                    (RouteModel {
                        vehicle: old(solution)@.routes[route_idx as int].vehicle,
                        tour: remove_job(old(solution)@.routes[route_idx as int].tour, job),
                    }),
                ));
            }
            true
        } else {
            false
        }
    }

    /// Removes a whole route given the outcome of the override test.
    ///
    /// Succeeds exactly when a route is still in budget and either the
    /// route's jobs and activities all are, or the override was taken: then
    /// every distinct job of the route joins the required set, the route
    /// leaves the active list, its vehicle returns to the availability
    /// registry, and the route budget shrinks by one. The job and activity
    /// budgets shrink by the route's counts, floored at zero when the
    /// override overshot them. Otherwise nothing changes.
    pub fn try_remove_route_with_override(
        &mut self,
        solution: &mut Solution,
        route_idx: usize,
        override_hit: bool,
    ) -> (removed: bool)
        requires
            old(self).wf(),
            route_idx < old(solution)@.routes.len(),
        ensures
            final(self).wf(),
            final(self).jobs_left <= old(self).jobs_left,
            final(self).activities_left <= old(self).activities_left,
            final(self).routes_left <= old(self).routes_left,
            removed == (old(self).routes_left >= 1 && (old(self).can_remove_fully(
                old(solution)@.routes[route_idx as int],
            ) || override_hit)),
            !removed ==> final(solution)@ == old(solution)@ && *final(self) == *old(self),
            removed ==> ({
                let route = old(solution)@.routes[route_idx as int];
                let jc = distinct_jobs(route.tour).len();
                let ac = route.tour.len();
                &&& final(self).routes_left == old(self).routes_left - 1
                &&& final(self).jobs_left == if old(self).jobs_left >= jc {
                    old(self).jobs_left - jc
                } else {
                    0
                }
                &&& final(self).activities_left == if old(self).activities_left >= ac {
                    old(self).activities_left - ac
                } else {
                    0
                }
                &&& final(solution)@.routes == old(solution)@.routes.remove(route_idx as int)
                &&& final(solution)@.required == old(solution)@.required + distinct_jobs(route.tour)
                &&& final(solution)@.registry == old(solution)@.registry.push(route.vehicle)
                &&& final(solution)@.cost == old(solution)@.cost
                &&& final(solution)@.fitness == old(solution)@.fitness
                &&& final(solution)@.order == old(solution)@.order
            }),
    {
        if self.routes_left < 1 {
            return false;
        }
        let mut jobs = distinct_jobs_of(&solution.routes[route_idx].tour);
        let jc = jobs.len();
        let ac = solution.routes[route_idx].tour.len();
        let can_full = jc <= self.jobs_left as usize && ac <= self.activities_left as usize;
        if can_full || override_hit {
            let route = solution.routes.remove(route_idx);
            solution.required.append(&mut jobs);
            solution.registry.push(route.vehicle);
            self.routes_left = self.routes_left - 1;
            self.jobs_left = if jc <= self.jobs_left as usize {
                self.jobs_left - jc as i32
            } else {
                0
            };
            self.activities_left = if ac <= self.activities_left as usize {
                self.activities_left - ac as i32
            } else {
                0
            };
            proof {
                assert(solution.routes@.map_values(|r: crate::solution::RouteState| r@)
                    =~= old(solution).routes@.map_values(
                    |r: crate::solution::RouteState| r@,
                ).remove(route_idx as int));
            }
            true
        } else {
            false
        }
    }

    /// Removes a whole route: in budget, or past it on a random override
    /// drawn at the fixed probability. When the route fits the budgets the
    /// removal is owed and no draw is taken; otherwise the draw decides, and
    /// whatever it gave, the counters only shrink and never go negative.
    pub fn try_remove_route(
        &mut self,
        solution: &mut Solution,
        route_idx: usize,
        random: &mut DefaultPureRandom,
    ) -> (removed: bool)
        requires
            old(self).wf(),
            route_idx < old(solution)@.routes.len(),
        ensures
            final(self).wf(),
            final(self).jobs_left <= old(self).jobs_left,
            final(self).activities_left <= old(self).activities_left,
            final(self).routes_left <= old(self).routes_left,
            old(self).routes_left >= 1 && old(self).can_remove_fully(
                old(solution)@.routes[route_idx as int],
            ) ==> removed,
            old(self).routes_left < 1 ==> !removed,
            !removed ==> final(solution)@ == old(solution)@ && *final(self) == *old(self),
            removed ==> ({
                let route = old(solution)@.routes[route_idx as int];
                let jc = distinct_jobs(route.tour).len();
                let ac = route.tour.len();
                &&& final(self).routes_left == old(self).routes_left - 1
                &&& final(self).jobs_left == if old(self).jobs_left >= jc {
                    old(self).jobs_left - jc
                } else {
                    0
                }
                &&& final(self).activities_left == if old(self).activities_left >= ac {
                    old(self).activities_left - ac
                } else {
                    0
                }
                &&& final(solution)@.routes == old(solution)@.routes.remove(route_idx as int)
                &&& final(solution)@.required == old(solution)@.required + distinct_jobs(route.tour)
                &&& final(solution)@.registry == old(solution)@.registry.push(route.vehicle)
                &&& final(solution)@.cost == old(solution)@.cost
                &&& final(solution)@.fitness == old(solution)@.fitness
                &&& final(solution)@.order == old(solution)@.order
            }),
    {
        if self.routes_left < 1 {
            return false;
        }
        let jobs = distinct_jobs_of(&solution.routes[route_idx].tour);
        let jc = jobs.len();
        let ac = solution.routes[route_idx].tour.len();
        let can_full = jc <= self.jobs_left as usize && ac <= self.activities_left as usize;
        let hit = if can_full {
            false
        } else {
            random.is_hit(Probability::new(ROUTE_REMOVAL_OVERRIDE_PARTS))
        };
        self.try_remove_route_with_override(solution, route_idx, can_full || hit)
    }
}

/// The counters of a ruin pass are non-increasing across any call sequence
/// and never negative: each removal step ensures a well-formed state that
/// has regained no budget, and those single steps compose.
pub proof fn lemma_budgets_monotone_compose(first: JobRemoval, second: JobRemoval, third: JobRemoval)
    requires
        second.wf(),
        third.wf(),
        second.no_budget_regained(first),
        third.no_budget_regained(second),
    ensures
        third.no_budget_regained(first),
        third.jobs_left >= 0,
        third.activities_left >= 0,
        third.routes_left >= 0,
{
}

} // verus!

//! Default wiring of the refinement loop: the execution environment, the
//! population variant picked from the configured parallelism, and the
//! heuristic state that one generation steps through — select, ruin,
//! external recreate and evaluate, accept, update. The external rebuild and
//! objective collaborators stay outside; the loop hands them a ruined copy
//! and takes back an evaluated candidate.

use vstd::prelude::*;
use vstd::pervasive::unreached;
use crate::acceptance::RandomProbability;
use crate::population::{
    ConfigurationError, ElitismPopulation, GreedyPopulation, insert_by_cost, models,
};
use crate::random::{DefaultPureRandom, PureRandom};
use crate::rosomaxa::{
    DEFAULT_CELL_CAPACITY, DEFAULT_CELL_WIDTH, DEFAULT_EXPLORATION_PATIENCE, DEFAULT_MAX_CELLS,
    RosomaxaConfig, RosomaxaPopulation,
};
use crate::ruin::{JobRemoval, RuinLimitsEx};
use crate::solution::{
    RouteModel, Solution, SolutionModel, distinct_jobs, lemma_distinct_jobs_nonempty,
    lemma_remove_job_len, lemma_total_stops_remove, lemma_total_stops_update, remove_job,
    total_stops, tour_count,
};

verus! {

/// Most parallel units one generation selects for.
pub const MAX_SELECTION_SIZE: usize = 8;

/// Retention bound of the default elitism population.
pub const DEFAULT_ELITE_SIZE: usize = 4;

/// Default ceiling on jobs one ruin pass removes.
pub const DEFAULT_MAX_RUINED_JOBS: usize = 30;

/// Default ceiling on activities one ruin pass removes.
pub const DEFAULT_MAX_RUINED_ACTIVITIES: usize = 60;

/// Default ceiling on routes one ruin pass drops.
pub const DEFAULT_MAX_AFFECTED_ROUTES: usize = 2;

/// Ruin attempts one pass makes before giving up on exhausting its budgets.
pub const MAX_RUIN_ATTEMPTS: usize = 64;

/// Execution environment of one search run: the parallelism available to
/// the worker pool and the run's root random stream, from which every
/// concurrent unit derives its own child stream before dispatch.
pub struct Environment {
    /// CPUs available to the worker pool.
    pub available_cpus: usize,
    /// The run's root random stream; derived from, never shared.
    pub random: DefaultPureRandom,
}

impl Environment {
    /// Builds an environment over the given parallelism.
    pub fn new(available_cpus: usize, random: DefaultPureRandom) -> (r: Self)
        ensures
            r.available_cpus == available_cpus,
    {
        Environment { available_cpus, random }
    }

    /// The worker pool's parallelism, never reported below one.
    pub fn parallelism(&self) -> (r: usize)
        ensures
            r == (if self.available_cpus >= 1 {
                self.available_cpus as int
            } else {
                1int
            }),
            r >= 1,
    {
        if self.available_cpus >= 1 {
            self.available_cpus
        } else {
            1
        }
    }
}

/// Gets the default population selection size: the available parallelism,
/// capped at [`MAX_SELECTION_SIZE`] and never below one.
pub fn get_default_selection_size(environment: &Environment) -> (r: usize)
    ensures
        r == (if environment.available_cpus < 1 {
            1int
        } else if environment.available_cpus < MAX_SELECTION_SIZE {
            environment.available_cpus as int
        } else {
            MAX_SELECTION_SIZE as int
        }),
        1 <= r <= MAX_SELECTION_SIZE,
{
    let cpus = environment.parallelism();
    if cpus < MAX_SELECTION_SIZE {
        cpus
    } else {
        MAX_SELECTION_SIZE
    }
}

/// The closed set of population variants the orchestrator configures.
pub enum TargetPopulation {
    /// Exactly one retained solution.
    Greedy(GreedyPopulation),
    /// A ranked, bounded set.
    Elitism(ElitismPopulation),
    /// The adaptive self-organizing map.
    Rosomaxa(RosomaxaPopulation),
}

impl TargetPopulation {
    /// The variant's own invariant.
    pub open spec fn wf(self) -> bool {
        match self {
            TargetPopulation::Greedy(_) => true,
            TargetPopulation::Elitism(p) => p.wf(),
            TargetPopulation::Rosomaxa(p) => p.wf(),
        }
    }

    /// The variant's configured retention bound.
    pub open spec fn size_bound(self) -> int {
        match self {
            TargetPopulation::Greedy(_) => 1,
            TargetPopulation::Elitism(p) => p.max_size(),
            TargetPopulation::Rosomaxa(p) => p.conf().max_cells * p.conf().cell_capacity,
        }
    }

    /// Whether anything is retained yet.
    pub open spec fn has_any(self) -> bool {
        match self {
            TargetPopulation::Greedy(p) => p.model() is Some,
            TargetPopulation::Elitism(p) => p.model().len() >= 1,
            TargetPopulation::Rosomaxa(p) => p.total() >= 1,
        }
    }

    /// How many solutions are retained: never more than the bound.
    pub fn size(&self) -> (r: usize)
        requires
            self.wf(),
        ensures
            r <= self.size_bound(),
            r >= 1 <==> self.has_any(),
    {
        match self {
            TargetPopulation::Greedy(p) => p.size(),
            TargetPopulation::Elitism(p) => p.size(),
            TargetPopulation::Rosomaxa(p) => p.size(),
        }
    }

    /// Offers a candidate to the retained set; the variant's own accept
    /// equation relates the new state to the old one and the candidate, the
    /// bound and the invariant hold afterwards, and something is retained
    /// from here on.
    pub fn accept(&mut self, candidate: Solution)
        requires
            old(self).wf(),
        ensures
            final(self).wf(),
            final(self).size_bound() == old(self).size_bound(),
            final(self).has_any(),
            accept_transition(*old(self), *final(self), candidate@),
    {
        match self {
            TargetPopulation::Greedy(p) => {
                let _ = p.accept(candidate);
            },
            TargetPopulation::Elitism(p) => {
                let _ = p.accept(candidate);
            },
            TargetPopulation::Rosomaxa(p) => {
                p.accept(candidate);
            },
        }
    }

    /// The batch for the next generation: copies of retained members per
    /// the variant's selection rule, and never empty, since an empty
    /// selection would violate the loop's invariant.
    pub fn select(&mut self) -> (r: Vec<Solution>)
        requires
            old(self).wf(),
            old(self).has_any(),
        ensures
            final(self).wf(),
            final(self).size_bound() == old(self).size_bound(),
            final(self).has_any(),
            r@.len() >= 1,
            select_result(*old(self), models(r@)),
    {
        match self {
            TargetPopulation::Greedy(p) => {
                let r = p.select();
                proof {
                    assert(models(r@) =~= seq![p.model()->Some_0]);
                }
                r
            },
            TargetPopulation::Elitism(p) => {
                let r = p.select();
                proof {
                    assert forall|i: int| 0 <= i < models(r@).len() implies p.model().contains(
                        #[trigger] models(r@)[i],
                    ) by {
                        assert(models(r@)[i] == r@[i]@);
                    }
                }
                r
            },
            TargetPopulation::Rosomaxa(p) => {
                let r = p.select();
                proof {
                    assert forall|i: int| 0 <= i < models(r@).len() implies p.retains(
                        #[trigger] models(r@)[i],
                    ) by {
                        assert(models(r@)[i] == r@[i]@);
                    }
                }
                r
            },
        }
    }

    /// Takes every retained solution out: exactly what the variant held.
    pub fn drain(&mut self) -> (r: Vec<Solution>)
        requires
            old(self).wf(),
        ensures
            final(self).wf(),
            !final(self).has_any(),
            drain_result(*old(self), models(r@)),
    {
        match self {
            TargetPopulation::Greedy(p) => {
                let ghost pre = p.model();
                let r = p.drain();
                proof {
                    match pre {
                        Some(m) => {
                            assert(models(r@) =~= seq![m]);
                        },
                        None => {
                            assert(models(r@) =~= Seq::<SolutionModel>::empty());
                        },
                    }
                }
                r
            },
            TargetPopulation::Elitism(p) => p.drain(),
            TargetPopulation::Rosomaxa(p) => p.drain(),
        }
    }
}


/// What one `accept` call does to a population, variant by variant: the
/// greedy equation, the elitism rank-insert-and-truncate equation, and the
/// adaptive variant's bound, best-cost and phase bookkeeping.
pub open spec fn accept_transition(
    pre: TargetPopulation,
    post: TargetPopulation,
    c: SolutionModel,
) -> bool {
    match (pre, post) {
        (TargetPopulation::Greedy(p), TargetPopulation::Greedy(q)) => {
            q.model() == (if (match p.model() {
                Some(m) => c.cost <= m.cost,
                None => true,
            }) {
                Some(c)
            } else {
                p.model()
            })
        },
        (TargetPopulation::Elitism(p), TargetPopulation::Elitism(q)) => {
            &&& q.max_size() == p.max_size()
            &&& q.sel_size() == p.sel_size()
            &&& q.model() == ({
                let ins = insert_by_cost(p.model(), c);
                if ins.len() <= p.max_size() {
                    ins
                } else {
                    ins.take(p.max_size())
                }
            })
        },
        (TargetPopulation::Rosomaxa(p), TargetPopulation::Rosomaxa(q)) => {
            &&& q.conf() == p.conf()
            &&& 1 <= q.total() <= p.conf().max_cells * p.conf().cell_capacity
            &&& q.best() == Some(
                (match p.best() {
                    None => c.cost,
                    Some(b) => if c.cost < b {
                        c.cost
                    } else {
                        b
                    },
                }),
            )
            &&& q.patience_count() == (match p.best() {
                None => 0int,
                Some(b) => if c.cost < b {
                    0int
                } else if p.patience_count() < u64::MAX {
                    p.patience_count() + 1
                } else {
                    p.patience_count()
                },
            })
            &&& q.exploring() == (q.patience_count() < p.conf().exploration_patience)
        },
        _ => false,
    }
}

/// What one `select` call returns, variant by variant: the greedy variant's
/// single held solution; for elitism, min(selection size, size) copies of
/// retained members; for the adaptive variant, min(selection size, size)
/// copies of retained members too.
pub open spec fn select_result(pre: TargetPopulation, batch: Seq<SolutionModel>) -> bool {
    match pre {
        TargetPopulation::Greedy(p) => (match p.model() {
            Some(m) => batch == seq![m],
            None => false,
        }),
        TargetPopulation::Elitism(p) => {
            &&& batch.len() == (if p.sel_size() <= p.model().len() {
                p.sel_size()
            } else {
                p.model().len() as int
            })
            &&& forall|i: int| 0 <= i < batch.len() ==> p.model().contains(#[trigger] batch[i])
        },
        TargetPopulation::Rosomaxa(p) => {
            &&& batch.len() == (if p.conf().selection_size <= p.total() {
                p.conf().selection_size as int
            } else {
                p.total()
            })
            &&& forall|i: int| 0 <= i < batch.len() ==> p.retains(#[trigger] batch[i])
        },
    }
}

/// What one `drain` call hands out, variant by variant: exactly what was
/// retained (for the adaptive variant, as many solutions as were retained).
pub open spec fn drain_result(pre: TargetPopulation, batch: Seq<SolutionModel>) -> bool {
    match pre {
        TargetPopulation::Greedy(p) => (match p.model() {
            Some(m) => batch == seq![m],
            None => batch == Seq::<SolutionModel>::empty(),
        }),
        TargetPopulation::Elitism(p) => batch == p.model(),
        TargetPopulation::Rosomaxa(p) => batch.len() == p.total(),
    }
}

/// The population `post` results from offering every solution of `batch`,
/// in order, to the population `pre`.
pub open spec fn accepts_seq(
    pre: TargetPopulation,
    post: TargetPopulation,
    batch: Seq<SolutionModel>,
) -> bool
    decreases batch.len(),
{
    if batch.len() == 0 {
        post == pre
    } else {
        exists|mid: TargetPopulation|
            #[trigger] accept_transition(pre, mid, batch[0]) && accepts_seq(
                mid,
                post,
                batch.drop_first(),
            )
    }
}

/// Offering one more candidate extends an accept history by one step.
proof fn lemma_accepts_seq_snoc(
    pre: TargetPopulation,
    mid: TargetPopulation,
    post: TargetPopulation,
    batch: Seq<SolutionModel>,
    c: SolutionModel,
)
    requires
        accepts_seq(pre, mid, batch),
        accept_transition(mid, post, c),
    ensures
        accepts_seq(pre, post, batch.push(c)),
    decreases batch.len(),
{
    if batch.len() == 0 {
        assert(mid == pre);
        assert(batch.push(c)[0] == c);
        assert(batch.push(c).drop_first() =~= Seq::<SolutionModel>::empty());
        assert(accept_transition(pre, post, batch.push(c)[0]) && accepts_seq(
            post,
            post,
            batch.push(c).drop_first(),
        ));
    } else {
        let m1 = choose|m: TargetPopulation|
            #[trigger] accept_transition(pre, m, batch[0]) && accepts_seq(
                m,
                mid,
                batch.drop_first(),
            );
        lemma_accepts_seq_snoc(m1, mid, post, batch.drop_first(), c);
        assert(batch.push(c)[0] == batch[0]);
        assert(batch.push(c).drop_first() =~= batch.drop_first().push(c));
        assert(accept_transition(pre, m1, batch.push(c)[0]) && accepts_seq(
            m1,
            post,
            batch.push(c).drop_first(),
        ));
    }
}

/// Gets the default population algorithm: size one selection degenerates to
/// the greedy variant, anything wider runs the adaptive map.
pub fn get_default_population(environment: &Environment) -> (r: TargetPopulation)
    ensures
        r.wf(),
        !r.has_any(),
        (get_default_selection_size_spec(environment) == 1) == (r is Greedy),
        (get_default_selection_size_spec(environment) > 1) == (r is Rosomaxa),
        (r matches TargetPopulation::Rosomaxa(p) ==> p.conf().selection_size
            == get_default_selection_size_spec(environment) && p.conf().max_cells
            == DEFAULT_MAX_CELLS && p.conf().cell_capacity == DEFAULT_CELL_CAPACITY
            && p.conf().exploration_patience == DEFAULT_EXPLORATION_PATIENCE
            && p.conf().cell_width == DEFAULT_CELL_WIDTH),
{
    let selection_size = get_default_selection_size(environment);
    if selection_size == 1 {
        TargetPopulation::Greedy(GreedyPopulation::new(None))
    } else {
        let config = RosomaxaConfig::new_with_defaults(selection_size);
        let population = match RosomaxaPopulation::new(config) {
            Ok(p) => p,
            Err(_) => {
                proof {
                    assert(false);
                }
                unreached()
            },
        };
        TargetPopulation::Rosomaxa(population)
    }
}

/// The selection size `get_default_selection_size` returns.
pub open spec fn get_default_selection_size_spec(environment: &Environment) -> int {
    if environment.available_cpus < 1 {
        1
    } else if environment.available_cpus < MAX_SELECTION_SIZE {
        environment.available_cpus as int
    } else {
        MAX_SELECTION_SIZE as int
    }
}

/// Creates the elitism population algorithm with the default retention
/// bound and the environment's selection size, on a stream derived from the
/// environment's.
pub fn create_elitism_population(environment: &mut Environment) -> (r: TargetPopulation)
    ensures
        r.wf(),
        !r.has_any(),
        r is Elitism,
        r.size_bound() == DEFAULT_ELITE_SIZE,
        (r matches TargetPopulation::Elitism(p) ==> p.max_size() == DEFAULT_ELITE_SIZE
            && p.sel_size() == get_default_selection_size_spec(old(environment)) && p.model().len()
            == 0),
        final(environment).available_cpus == old(environment).available_cpus,
{
    let selection_size = get_default_selection_size(environment);
    let random = environment.random.new_pure_random();
    let population = match ElitismPopulation::new(random, DEFAULT_ELITE_SIZE, selection_size) {
        Ok(p) => p,
        Err(_) => {
            proof {
                assert(false);
            }
            unreached()
        },
    };
    TargetPopulation::Elitism(population)
}

/// The state the refinement loop steps through: population, acceptance
/// policy, ruin budgets, a derived random stream and the generation count.
pub struct DefaultHeuristic {
    population: TargetPopulation,
    acceptance: RandomProbability,
    limits: RuinLimitsEx,
    random: DefaultPureRandom,
    generation: u64,
}

impl DefaultHeuristic {
    /// Population invariant, acceptance probability in range, and ruin
    /// budgets that fit the pass counters.
    pub closed spec fn wf(self) -> bool {
        &&& self.population.wf()
        &&& self.acceptance.probability.wf()
        &&& self.limits.max_ruined_jobs <= i32::MAX
        &&& self.limits.max_ruined_activities <= i32::MAX
        &&& self.limits.max_affected_routes <= i32::MAX
    }

    /// Whether the population holds anything to select from.
    pub closed spec fn seeded(self) -> bool {
        self.population.has_any()
    }

    /// The population the heuristic retains solutions in.
    pub closed spec fn population(self) -> TargetPopulation {
        self.population
    }

    /// The configured ruin budgets of one pass.
    pub closed spec fn ruin_limits(self) -> RuinLimitsEx {
        self.limits
    }

    /// Parts per million of the acceptance policy's escape probability.
    pub closed spec fn acceptance_parts(self) -> int {
        self.acceptance.probability.parts as int
    }

    /// Generations run so far.
    pub closed spec fn generation_count(self) -> int {
        self.generation as int
    }

    /// Seeds the population with the externally supplied initial solutions —
    /// every one of them is offered, in order — and resets the generation
    /// counter.
    pub fn initialize(&mut self, initial: Vec<Solution>)
        requires
            old(self).wf(),
        ensures
            final(self).wf(),
            final(self).generation_count() == 0,
            final(self).ruin_limits() == old(self).ruin_limits(),
            final(self).acceptance_parts() == old(self).acceptance_parts(),
            initial@.len() >= 1 ==> final(self).seeded(),
            accepts_seq(old(self).population(), final(self).population(), models(initial@)),
    {
        let mut initial = initial;
        let ghost orig = initial@;
        let n = initial.len();
        let mut i: usize = 0;
        proof {
            assert(models(orig.take(0)) =~= Seq::<SolutionModel>::empty());
        }
        while i < n
            invariant
                self.wf(),
                self.limits == old(self).limits,
                self.acceptance == old(self).acceptance,
                n == orig.len(),
                i <= n,
                initial@ == orig.skip(i as int),
                accepts_seq(old(self).population(), self.population(), models(orig.take(i as int))),
                i >= 1 ==> self.seeded(),
            decreases n - i,
        {
            let s = initial.remove(0);
            proof {
                assert(s == orig[i as int]);
                assert(initial@ =~= orig.skip(i + 1));
            }
            let ghost pre_pop = self.population;
            self.population.accept(s);
            proof {
                lemma_accepts_seq_snoc(
                    old(self).population(),
                    pre_pop,
                    self.population(),
                    models(orig.take(i as int)),
                    orig[i as int]@,
                );
                assert(models(orig.take(i + 1)) =~= models(orig.take(i as int)).push(
                    orig[i as int]@,
                ));
            }
            i = i + 1;
        }
        proof {
            assert(orig.take(n as int) =~= orig);
        }
        self.generation = 0;
    }

    /// One Selecting step: the batch of parents for this generation —
    /// copies of retained members per the population's selection rule.
    pub fn select_batch(&mut self) -> (r: Vec<Solution>)
        requires
            old(self).wf(),
            old(self).seeded(),
        ensures
            final(self).wf(),
            final(self).seeded(),
            final(self).ruin_limits() == old(self).ruin_limits(),
            final(self).acceptance_parts() == old(self).acceptance_parts(),
            final(self).generation_count() == old(self).generation_count(),
            r@.len() >= 1,
            select_result(old(self).population(), models(r@)),
    {
        self.population.select()
    }

    /// One Ruining step: copies the selected solution, then repeatedly
    /// removes jobs and routes under fresh budget counters until they are
    /// exhausted or the pass gives up. The copy never aliases the retained
    /// member; its stop count never grows; every job a removal took out
    /// joins the required set, and every dropped route returns exactly one
    /// vehicle to the registry — never more routes than the configured
    /// budget. The externally computed cost data rides along unchanged for
    /// the external rebuild to replace.
    pub fn ruin(&mut self, solution: &Solution) -> (r: Solution)
        requires
            old(self).wf(),
        ensures
            final(self).wf(),
            final(self).population() == old(self).population(),
            final(self).ruin_limits() == old(self).ruin_limits(),
            final(self).acceptance_parts() == old(self).acceptance_parts(),
            final(self).generation_count() == old(self).generation_count(),
            final(self).seeded() == old(self).seeded(),
            r@.cost == solution@.cost,
            r@.fitness == solution@.fitness,
            total_stops(r@.routes) <= total_stops(solution@.routes),
            solution@.required.is_prefix_of(r@.required),
            solution@.registry.is_prefix_of(r@.registry),
            r@.routes.len() + r@.registry.len() == solution@.routes.len()
                + solution@.registry.len(),
            r@.registry.len() <= solution@.registry.len() + old(self).ruin_limits(
            ).max_affected_routes,
            total_stops(r@.routes) < total_stops(solution@.routes) ==> r@.required.len()
                > solution@.required.len(),
    {
        let mut copy = solution.duplicate();
        let mut removal = JobRemoval::new(&self.limits);
        proof {
            assert(solution@.required =~= copy@.required.subrange(
                0,
                solution@.required.len() as int,
            ));
            assert(solution@.registry =~= copy@.registry.subrange(
                0,
                solution@.registry.len() as int,
            ));
        }
        let mut attempts: usize = 0;
        while attempts < MAX_RUIN_ATTEMPTS
            invariant
                self.wf(),
                self.population == old(self).population,
                self.acceptance == old(self).acceptance,
                self.limits == old(self).limits,
                self.generation == old(self).generation,
                removal.wf(),
                copy@.cost == solution@.cost,
                copy@.fitness == solution@.fitness,
                total_stops(copy@.routes) <= total_stops(solution@.routes),
                solution@.required.is_prefix_of(copy@.required),
                solution@.registry.is_prefix_of(copy@.registry),
                copy@.routes.len() + copy@.registry.len() == solution@.routes.len()
                    + solution@.registry.len(),
                copy@.registry.len() + removal.routes_left == solution@.registry.len() + old(
                    self,
                ).limits.max_affected_routes,
                total_stops(copy@.routes) < total_stops(solution@.routes) ==> copy@.required.len()
                    > solution@.required.len(),
            decreases MAX_RUIN_ATTEMPTS - attempts,
        {
            if copy.routes.len() == 0 {
                break;
            }
            if removal.jobs_left <= 0 && removal.routes_left <= 0 {
                break;
            }
            let max_idx = copy.routes.len() - 1;
            let route_idx = if max_idx == 0 {
                0
            } else if max_idx <= i32::MAX as usize {
                self.random.uniform_int(0, max_idx as i32) as usize
            } else {
                0
            };
            let ghost before = copy@;
            if self.random.is_head_not_tails() {
                let removed = removal.try_remove_route(&mut copy, route_idx, &mut self.random);
                proof {
                    if removed {
                        let route = before.routes[route_idx as int];
                        lemma_total_stops_remove(before.routes, route_idx as int);
                        lemma_prefix_extend(
                            solution@.required,
                            before.required,
                            distinct_jobs(route.tour),
                        );
                        assert(copy@.registry =~= before.registry + seq![route.vehicle]);
                        lemma_prefix_extend(
                            solution@.registry,
                            before.registry,
                            seq![route.vehicle],
                        );
                        if route.tour.len() >= 1 {
                            lemma_distinct_jobs_nonempty(route.tour);
                        } else {
                            assert(copy@.required =~= before.required);
                        }
                    }
                }
            } else {
                let tour_len = route_tour_len(&copy, route_idx);
                if tour_len >= 1 {
                    let stop = if tour_len == 1 {
                        0
                    } else if tour_len - 1 <= i32::MAX as usize {
                        self.random.uniform_int(0, (tour_len - 1) as i32) as usize
                    } else {
                        0
                    };
                    let job = route_stop_job(&copy, route_idx, stop);
                    let removed = removal.try_remove_job(&mut copy, route_idx, job);
                    proof {
                        if removed {
                            let route = before.routes[route_idx as int];
                            lemma_remove_job_len(route.tour, job);
                            lemma_total_stops_update(
                                before.routes,
                                route_idx as int,
                                (RouteModel {
                                    vehicle: route.vehicle,
                                    tour: remove_job(route.tour, job),
                                }),
                            );
                            assert(copy@.required =~= before.required + seq![job]);
                            lemma_prefix_extend(solution@.required, before.required, seq![job]);
                        }
                    }
                }
            }
            attempts = attempts + 1;
        }
        copy
    }

    /// One Accepting and Updating step: the acceptance policy compares the
    /// evaluated candidate against its origin, and an accepted candidate —
    /// exactly this one — is submitted to the population, whose new state
    /// follows the variant's accept equation; a rejected candidate leaves
    /// the population untouched. A candidate that costs no more than its
    /// reference is always accepted; draws come from the stream handed in,
    /// the candidate's own.
    pub fn update(
        &mut self,
        candidate: Solution,
        reference: &Solution,
        random: &mut DefaultPureRandom,
    ) -> (accepted: bool)
        requires
            old(self).wf(),
        ensures
            final(self).wf(),
            final(self).ruin_limits() == old(self).ruin_limits(),
            final(self).acceptance_parts() == old(self).acceptance_parts(),
            final(self).generation_count() == old(self).generation_count(),
            candidate@.cost <= reference@.cost ==> accepted,
            !accepted ==> candidate@.cost > reference@.cost,
            accepted ==> accept_transition(
                old(self).population(),
                final(self).population(),
                candidate@,
            ),
            accepted ==> final(self).seeded(),
            !accepted ==> final(self).population() == old(self).population(),
    {
        let accepted = self.acceptance.is_accepted(reference, &candidate, random);
        if accepted {
            self.population.accept(candidate);
        }
        accepted
    }

    /// Closes one generation; the counter never wraps.
    pub fn next_generation(&mut self)
        requires
            old(self).wf(),
        ensures
            final(self).wf(),
            final(self).generation_count() == (if old(self).generation_count() < u64::MAX {
                old(self).generation_count() + 1
            } else {
                old(self).generation_count()
            }),
    {
        if self.generation < u64::MAX {
            self.generation = self.generation + 1;
        }
    }

    /// Whether the externally configured generation budget is spent.
    pub fn should_terminate(&self, max_generations: u64) -> (r: bool)
        ensures
            r == (self.generation_count() >= max_generations),
    {
        self.generation >= max_generations
    }

    /// Derives a decorrelated stream for one concurrent unit of work, so no
    /// unit ever shares a stream with another.
    pub fn derive_stream(&mut self) -> (r: DefaultPureRandom)
        requires
            old(self).wf(),
        ensures
            final(self).wf(),
            final(self).seeded() == old(self).seeded(),
            final(self).generation_count() == old(self).generation_count(),
    {
        self.random.new_pure_random()
    }
}

/// Gets the default heuristic: the default population for the environment's
/// parallelism, the default acceptance decorator and the default ruin
/// budgets, on a stream derived from the environment's.
pub fn get_default_heuristic(environment: &mut Environment) -> (r: DefaultHeuristic)
    ensures
        r.wf(),
        r.generation_count() == 0,
        r.population().wf(),
        !r.population().has_any(),
        (get_default_selection_size_spec(old(environment)) == 1) == (r.population() is Greedy),
        (get_default_selection_size_spec(old(environment)) > 1) == (r.population() is Rosomaxa),
        (r.population() matches TargetPopulation::Rosomaxa(p) ==> p.conf().selection_size
            == get_default_selection_size_spec(old(environment)) && p.conf().max_cells
            == DEFAULT_MAX_CELLS && p.conf().cell_capacity == DEFAULT_CELL_CAPACITY
            && p.conf().exploration_patience == DEFAULT_EXPLORATION_PATIENCE
            && p.conf().cell_width == DEFAULT_CELL_WIDTH),
        r.acceptance_parts() == crate::acceptance::DEFAULT_ACCEPTANCE_PARTS,
        r.ruin_limits() == (RuinLimitsEx {
            max_ruined_jobs: DEFAULT_MAX_RUINED_JOBS,
            max_ruined_activities: DEFAULT_MAX_RUINED_ACTIVITIES,
            max_affected_routes: DEFAULT_MAX_AFFECTED_ROUTES,
        }),
        final(environment).available_cpus == old(environment).available_cpus,
{
    let population = get_default_population(environment);
    let random = environment.random.new_pure_random();
    DefaultHeuristic {
        population,
        acceptance: RandomProbability::default(),
        limits: RuinLimitsEx {
            max_ruined_jobs: DEFAULT_MAX_RUINED_JOBS,
            max_ruined_activities: DEFAULT_MAX_RUINED_ACTIVITIES,
            max_affected_routes: DEFAULT_MAX_AFFECTED_ROUTES,
        },
        random,
        generation: 0,
    }
}

/// A prefix of a batch stays a prefix when the batch grows at its end.
proof fn lemma_prefix_extend(a: Seq<u64>, b: Seq<u64>, c: Seq<u64>)
    requires
        a.is_prefix_of(b),
    ensures
        a.is_prefix_of(b + c),
{
    assert(a =~= (b + c).subrange(0, a.len() as int));
}

/// How many stops the given route of the solution has.
fn route_tour_len(solution: &Solution, route_idx: usize) -> (r: usize)
    requires
        route_idx < solution@.routes.len(),
    ensures
        r == solution@.routes[route_idx as int].tour.len(),
{
    solution.routes[route_idx].tour.len()
}

/// The job at the given stop of the given route.
fn route_stop_job(solution: &Solution, route_idx: usize, stop: usize) -> (r: u64)
    requires
        route_idx < solution@.routes.len(),
        stop < solution@.routes[route_idx as int].tour.len(),
    ensures
        r == solution@.routes[route_idx as int].tour[stop as int],
{
    solution.routes[route_idx].tour[stop]
}

} // verus!

//! Behavioral tests of the search engine: the randomization primitives,
//! the bounded ruin operator, the acceptance policies, the populations and
//! the default heuristic wiring.

use vrp_search::acceptance::{Greedy, RandomProbability, DEFAULT_ACCEPTANCE_PARTS};
use vrp_search::dominance::{compare, compute_fronts, DominanceOrder, DominanceRelation};
use vrp_search::heuristic::{
    create_elitism_population, get_default_heuristic, get_default_population,
    get_default_selection_size, Environment, TargetPopulation,
};
use vrp_search::population::{ConfigurationError, ElitismPopulation, GreedyPopulation};
use vrp_search::random::{DefaultPureRandom, Probability, PureRandom, PROBABILITY_SCALE};
use vrp_search::rosomaxa::{RosomaxaConfig, RosomaxaPopulation};
use vrp_search::ruin::{JobRemoval, RuinLimitsEx};
use vrp_search::solution::{RouteState, Solution};

fn solution_with_cost(cost: u64) -> Solution {
    Solution::new(Vec::new(), Vec::new(), Vec::new(), cost)
}

fn solution_with_route(vehicle: u64, tour: Vec<u64>) -> Solution {
    Solution::new(vec![RouteState::new(vehicle, tour)], Vec::new(), Vec::new(), 0)
}

/// A route with `jobs` distinct jobs; job `multi_job` occurs `multi` times.
fn tour_with_jobs(jobs: u64, multi_job: u64, multi: usize) -> Vec<u64> {
    let mut tour = Vec::new();
    for j in 0..jobs {
        tour.push(j);
        if j == multi_job {
            for _ in 1..multi {
                tour.push(j);
            }
        }
    }
    tour
}

#[test]
fn uniform_int_equal_bounds_returns_min() {
    let mut random = DefaultPureRandom::with_seed(7);
    for min in [-1000, -1, 0, 1, 42, i32::MAX, i32::MIN] {
        assert_eq!(random.uniform_int(min, min), min);
    }
}

#[test]
fn uniform_int_stays_inclusive_both_ends() {
    let mut random = DefaultPureRandom::with_seed(11);
    let mut saw_min = false;
    let mut saw_max = false;
    for _ in 0..10000 {
        let v = random.uniform_int(-2, 2);
        assert!((-2..=2).contains(&v));
        saw_min |= v == -2;
        saw_max |= v == 2;
    }
    assert!(saw_min && saw_max);
}

#[test]
fn weighted_never_returns_zero_weight_index() {
    let mut random = DefaultPureRandom::with_seed(123);
    let weights = vec![0, 5, 0, 3, 0];
    for _ in 0..5000 {
        let idx = random.weighted(&weights);
        assert!(idx == 1 || idx == 3, "picked zero-weight index {}", idx);
    }
}

#[test]
fn weighted_frequency_approaches_weight_share() {
    let mut random = DefaultPureRandom::with_seed(321);
    let weights = vec![1, 3];
    let trials = 40000;
    let mut hits_of_one = 0usize;
    for _ in 0..trials {
        if random.weighted(&weights) == 1 {
            hits_of_one += 1;
        }
    }
    let share = hits_of_one as f64 / trials as f64;
    assert!((share - 0.75).abs() < 0.02, "share was {}", share);
}

#[test]
fn coin_flip_lands_on_both_sides() {
    let mut random = DefaultPureRandom::with_seed(5);
    let mut heads = 0usize;
    for _ in 0..1000 {
        if random.is_head_not_tails() {
            heads += 1;
        }
    }
    assert!(heads > 300 && heads < 700, "heads {}", heads);
}

#[test]
fn probability_is_clamped_into_unit_range() {
    assert_eq!(Probability::new(2 * PROBABILITY_SCALE).parts, PROBABILITY_SCALE);
    assert_eq!(Probability::new(250).parts, 250);
}

#[test]
fn is_hit_never_on_zero_always_on_one() {
    let mut random = DefaultPureRandom::with_seed(99);
    for _ in 0..1000 {
        assert!(!random.is_hit(Probability::new(0)));
        assert!(random.is_hit(Probability::new(PROBABILITY_SCALE)));
    }
}

#[test]
fn seeded_streams_are_reproducible() {
    let mut a = DefaultPureRandom::with_seed(4242);
    let mut b = DefaultPureRandom::with_seed(4242);
    for _ in 0..100 {
        assert_eq!(a.next_u64(), b.next_u64());
    }
}

#[test]
fn generated_copy_repeats_the_stream() {
    let mut a = DefaultPureRandom::for_tests();
    let mut b = a.generate_copy();
    for _ in 0..100 {
        assert_eq!(a.next_u64(), b.next_u64());
    }
}

#[test]
fn randomly_seeded_streams_differ() {
    let mut a = DefaultPureRandom::new_random();
    let mut b = DefaultPureRandom::new_random();
    let mut same = true;
    for _ in 0..10 {
        same &= a.next_u64() == b.next_u64();
    }
    assert!(!same);
}

#[test]
fn derived_stream_diverges_from_parent() {
    let mut parent = DefaultPureRandom::with_seed(1);
    let mut child = parent.new_pure_random();
    let mut same = true;
    for _ in 0..10 {
        same &= parent.next_u64() == child.next_u64();
    }
    assert!(!same);
}

#[test]
fn remove_job_takes_all_its_stops_and_decrements_budgets() {
    // Budgets of ten jobs and twenty activities; job 3 spans two stops.
    let mut tour = Vec::new();
    for j in 0..10u64 {
        tour.push(j);
        if j == 3 {
            tour.push(j);
        }
    }
    let mut solution = solution_with_route(1, tour);
    let limits =
        RuinLimitsEx { max_ruined_jobs: 10, max_ruined_activities: 20, max_affected_routes: 2 };
    let mut removal = JobRemoval::new(&limits);

    let removed = removal.try_remove_job(&mut solution, 0, 3);

    assert!(removed);
    assert_eq!(removal.jobs_left, 9);
    assert_eq!(removal.activities_left, 18);
    assert_eq!(removal.routes_left, 2);
    assert_eq!(solution.routes[0].tour.len(), 9);
    assert!(!solution.routes[0].tour.contains(&3));
    assert_eq!(solution.required, vec![3]);
}

#[test]
fn remove_job_absent_from_route_changes_nothing() {
    let mut solution = solution_with_route(1, vec![0, 1, 2]);
    let limits =
        RuinLimitsEx { max_ruined_jobs: 10, max_ruined_activities: 20, max_affected_routes: 2 };
    let mut removal = JobRemoval::new(&limits);

    let removed = removal.try_remove_job(&mut solution, 0, 99);

    assert!(!removed);
    assert_eq!(removal.jobs_left, 10);
    assert_eq!(removal.activities_left, 20);
    assert_eq!(solution.routes[0].tour, vec![0, 1, 2]);
    assert!(solution.required.is_empty());
}

#[test]
fn remove_job_with_no_activity_budget_changes_nothing() {
    let mut solution = solution_with_route(1, vec![0, 1, 2]);
    let limits =
        RuinLimitsEx { max_ruined_jobs: 1, max_ruined_activities: 0, max_affected_routes: 0 };
    let mut removal = JobRemoval::new(&limits);

    let removed = removal.try_remove_job(&mut solution, 0, 1);

    assert!(!removed);
    assert_eq!(removal.jobs_left, 1);
    assert_eq!(removal.activities_left, 0);
    assert_eq!(solution.routes[0].tour, vec![0, 1, 2]);
    assert!(solution.required.is_empty());
}

#[test]
fn remove_job_with_no_job_budget_changes_nothing() {
    let mut solution = solution_with_route(1, vec![0, 1, 2]);
    let limits =
        RuinLimitsEx { max_ruined_jobs: 0, max_ruined_activities: 1, max_affected_routes: 1 };
    let mut removal = JobRemoval::new(&limits);

    assert!(!removal.try_remove_job(&mut solution, 0, 1));
    assert!(solution.required.is_empty());
}

#[test]
fn remove_route_within_budget_moves_all_jobs_to_required() {
    let tour = tour_with_jobs(10, 0, 1);
    let mut solution = solution_with_route(7, tour);
    let limits =
        RuinLimitsEx { max_ruined_jobs: 10, max_ruined_activities: 10, max_affected_routes: 1 };
    let mut removal = JobRemoval::new(&limits);
    let mut random = DefaultPureRandom::for_tests();

    let removed = removal.try_remove_route(&mut solution, 0, &mut random);

    assert!(removed);
    assert_eq!(solution.required.len(), 10);
    assert_eq!(solution.routes.len(), 0);
    assert_eq!(solution.registry, vec![7]);
    assert_eq!(removal.jobs_left, 0);
    assert_eq!(removal.activities_left, 0);
    assert_eq!(removal.routes_left, 0);
}

#[test]
fn remove_route_on_override_clamps_budgets_at_zero() {
    let tour = tour_with_jobs(10, 0, 1);
    let mut solution = solution_with_route(7, tour);
    let limits =
        RuinLimitsEx { max_ruined_jobs: 9, max_ruined_activities: 9, max_affected_routes: 1 };
    let mut removal = JobRemoval::new(&limits);

    let removed = removal.try_remove_route_with_override(&mut solution, 0, true);

    assert!(removed);
    assert_eq!(removal.jobs_left, 0, "clamped, never negative");
    assert_eq!(removal.activities_left, 0, "clamped, never negative");
    assert_eq!(removal.routes_left, 0);
    assert_eq!(solution.required.len(), 10);
    assert_eq!(solution.routes.len(), 0);
    assert_eq!(solution.registry, vec![7]);
}

#[test]
fn remove_route_past_budget_without_override_changes_nothing() {
    let tour = tour_with_jobs(10, 0, 1);
    let mut solution = solution_with_route(7, tour);
    let limits =
        RuinLimitsEx { max_ruined_jobs: 9, max_ruined_activities: 9, max_affected_routes: 1 };
    let mut removal = JobRemoval::new(&limits);

    let removed = removal.try_remove_route_with_override(&mut solution, 0, false);

    assert!(!removed);
    assert_eq!(removal.jobs_left, 9);
    assert_eq!(removal.activities_left, 9);
    assert_eq!(removal.routes_left, 1);
    assert_eq!(solution.routes.len(), 1);
    assert!(solution.required.is_empty());
    assert!(solution.registry.is_empty());
}

#[test]
fn remove_route_with_no_route_budget_changes_nothing() {
    let tour = tour_with_jobs(10, 0, 1);
    let mut solution = solution_with_route(7, tour);
    let limits =
        RuinLimitsEx { max_ruined_jobs: 10, max_ruined_activities: 10, max_affected_routes: 0 };
    let mut removal = JobRemoval::new(&limits);

    assert!(!removal.try_remove_route_with_override(&mut solution, 0, true));
    assert_eq!(solution.routes.len(), 1);
    assert!(solution.required.is_empty());
}

#[test]
fn greedy_population_never_exceeds_one_and_replaces_iff_not_worse() {
    let mut population = GreedyPopulation::new(None);
    assert_eq!(population.size(), 0);

    assert!(population.accept(solution_with_cost(10)));
    assert_eq!(population.size(), 1);

    assert!(!population.accept(solution_with_cost(12)), "worse is refused");
    assert_eq!(population.size(), 1);

    assert!(population.accept(solution_with_cost(10)), "equal cost replaces");
    assert!(population.accept(solution_with_cost(4)));
    assert_eq!(population.size(), 1);

    let batch = population.select();
    assert_eq!(batch.len(), 1);
    assert_eq!(batch[0].cost, 4);

    let drained = population.drain();
    assert_eq!(drained.len(), 1);
    assert_eq!(population.size(), 0);
}

#[test]
fn elitism_population_stays_within_bound_and_ranks_by_cost() {
    let random = DefaultPureRandom::for_tests();
    let mut population = ElitismPopulation::new(random, 4, 2).unwrap();
    for cost in [5, 3, 8, 1, 9, 9, 2] {
        population.accept(solution_with_cost(cost));
        assert!(population.size() <= 4);
    }
    let drained = population.drain();
    let costs: Vec<u64> = drained.iter().map(|s| s.cost).collect();
    assert_eq!(costs, vec![1, 2, 3, 5]);
}

#[test]
fn elitism_select_returns_min_of_size_and_selection_size() {
    let random = DefaultPureRandom::for_tests();
    let mut population = ElitismPopulation::new(random, 4, 3).unwrap();
    population.accept(solution_with_cost(5));
    assert_eq!(population.select().len(), 1, "undersized population");
    population.accept(solution_with_cost(6));
    population.accept(solution_with_cost(7));
    population.accept(solution_with_cost(8));
    assert_eq!(population.select().len(), 3, "full selection size");
}

#[test]
fn elitism_evicts_most_recently_inserted_among_equals() {
    let random = DefaultPureRandom::for_tests();
    let mut population = ElitismPopulation::new(random, 2, 1).unwrap();
    assert!(population.accept(solution_with_cost(5)));
    let mut first_seven = solution_with_cost(7);
    first_seven.required.push(111);
    assert!(population.accept(first_seven));

    let mut second_seven = solution_with_cost(7);
    second_seven.required.push(222);
    assert!(!population.accept(second_seven), "the newcomer ties and is evicted");

    let drained = population.drain();
    assert_eq!(drained.len(), 2);
    assert_eq!(drained[1].required, vec![111], "the older equal survived");
}

fn expect_config_error<T>(r: Result<T, ConfigurationError>) -> ConfigurationError {
    match r {
        Err(e) => e,
        Ok(_) => panic!("expected a configuration error"),
    }
}

#[test]
fn elitism_rejects_zero_configuration() {
    let err = expect_config_error(ElitismPopulation::new(DefaultPureRandom::for_tests(), 4, 0));
    assert_eq!(err, ConfigurationError::ZeroSelectionSize);
    let err = expect_config_error(ElitismPopulation::new(DefaultPureRandom::for_tests(), 0, 2));
    assert_eq!(err, ConfigurationError::ZeroRetention);
}

#[test]
fn rosomaxa_rejects_zero_configuration() {
    let config = RosomaxaConfig::new_with_defaults(0);
    let err = expect_config_error(RosomaxaPopulation::new(config));
    assert_eq!(err, ConfigurationError::ZeroSelectionSize);

    let mut config = RosomaxaConfig::new_with_defaults(4);
    config.cell_capacity = 0;
    let err = expect_config_error(RosomaxaPopulation::new(config));
    assert_eq!(err, ConfigurationError::ZeroRetention);
}

#[test]
fn rosomaxa_retention_stays_bounded() {
    let config = RosomaxaConfig::new_with_defaults(4);
    let bound = config.max_cells * config.cell_capacity;
    let mut population = RosomaxaPopulation::new(config).unwrap();
    for i in 0..500u64 {
        let mut s = solution_with_cost(1000 - i);
        s.set_evaluation(1000 - i, vec![i * 7 % 5000, i * 13 % 5000]);
        population.accept(s);
        assert!(population.size() <= bound);
    }
    assert!(population.size() >= 1);
}

#[test]
fn rosomaxa_selection_is_duplicate_free_and_sized() {
    let config = RosomaxaConfig::new_with_defaults(4);
    let selection_size = config.selection_size;
    let mut population = RosomaxaPopulation::new(config).unwrap();
    let mut s = solution_with_cost(50);
    s.set_evaluation(50, vec![50, 50]);
    population.accept(s);
    assert_eq!(population.select().len(), 1, "one member, one pick");

    for i in 0..40u64 {
        let mut s = solution_with_cost(100 + i);
        s.set_evaluation(100 + i, vec![i * 900, 3000 - i * 70]);
        population.accept(s);
    }
    let picks = population.select_positions();
    assert_eq!(picks.len(), selection_size);
    for i in 0..picks.len() {
        for j in 0..i {
            assert_ne!(picks[i], picks[j], "no position twice in one call");
        }
    }
    assert_eq!(population.select().len(), selection_size);
}

#[test]
fn rosomaxa_phases_follow_the_no_improvement_counter() {
    let mut config = RosomaxaConfig::new_with_defaults(2);
    config.exploration_patience = 3;
    let mut population = RosomaxaPopulation::new(config).unwrap();

    population.accept(solution_with_cost(100));
    assert!(population.is_exploring(), "an improvement keeps exploring");
    for _ in 0..3 {
        population.accept(solution_with_cost(200));
    }
    assert!(!population.is_exploring(), "patience spent: the map froze");
    population.accept(solution_with_cost(50));
    assert!(population.is_exploring(), "an improvement reopens the map");
    assert_eq!(population.best_cost(), Some(50));
}

#[test]
fn greedy_acceptance_takes_exactly_the_not_worse() {
    let policy = Greedy::new();
    let reference = solution_with_cost(10);
    assert!(policy.is_accepted(&reference, &solution_with_cost(9)));
    assert!(policy.is_accepted(&reference, &solution_with_cost(10)));
    assert!(!policy.is_accepted(&reference, &solution_with_cost(11)));
}

#[test]
fn random_probability_default_and_extremes() {
    let policy = RandomProbability::default();
    assert_eq!(policy.probability.parts, DEFAULT_ACCEPTANCE_PARTS);

    let reference = solution_with_cost(10);
    let mut random = DefaultPureRandom::for_tests();

    let never = RandomProbability::new(Greedy::new(), Probability::new(0));
    let always = RandomProbability::new(Greedy::new(), Probability::new(PROBABILITY_SCALE));
    for _ in 0..200 {
        assert!(never.is_accepted(&reference, &solution_with_cost(10), &mut random));
        assert!(!never.is_accepted(&reference, &solution_with_cost(11), &mut random));
        assert!(always.is_accepted(&reference, &solution_with_cost(999), &mut random));
    }
}

#[test]
fn random_probability_occasionally_keeps_worse_solutions() {
    let policy = RandomProbability::new(Greedy::new(), Probability::new(PROBABILITY_SCALE / 2));
    let reference = solution_with_cost(10);
    let mut random = DefaultPureRandom::for_tests();
    let mut kept = 0usize;
    for _ in 0..1000 {
        if policy.is_accepted(&reference, &solution_with_cost(11), &mut random) {
            kept += 1;
        }
    }
    assert!(kept > 300 && kept < 700, "kept {}", kept);
}

#[test]
fn dominance_compare_covers_all_relations() {
    assert_eq!(compare(&vec![1, 2], &vec![2, 2]), DominanceRelation::Less);
    assert_eq!(compare(&vec![3, 2], &vec![2, 2]), DominanceRelation::Greater);
    assert_eq!(compare(&vec![2, 2], &vec![2, 2]), DominanceRelation::Equal);
    assert_eq!(compare(&vec![1, 3], &vec![3, 1]), DominanceRelation::Incomparable);
}

#[test]
fn fronts_partition_by_domination_depth() {
    let objectives = vec![vec![1, 1], vec![2, 2], vec![1, 2], vec![3, 1]];
    let ranks = compute_fronts(&objectives);
    assert_eq!(ranks, vec![0, 2, 1, 1]);
}

#[test]
fn fronts_of_incomparable_batch_are_all_zero() {
    let objectives = vec![vec![1, 9], vec![5, 5], vec![9, 1]];
    assert_eq!(compute_fronts(&objectives), vec![0, 0, 0]);
}

#[test]
fn dominance_cache_is_invalidated_on_re_evaluation() {
    let mut s = solution_with_cost(5);
    s.set_order(DominanceOrder { front_index: 2, seq_index: 0 });
    assert!(s.get_order().is_some());
    s.set_evaluation(4, vec![4]);
    assert!(s.get_order().is_none(), "a stale rank must not be readable");
    assert_eq!(s.cost, 4);
}

#[test]
fn duplicate_makes_an_independent_deep_copy() {
    let mut original = solution_with_route(3, vec![0, 1, 2]);
    original.required.push(9);
    let mut copy = original.duplicate();
    copy.routes[0].tour.push(77);
    copy.required.push(10);
    assert_eq!(original.routes[0].tour, vec![0, 1, 2]);
    assert_eq!(original.required, vec![9]);
    assert_eq!(copy.routes[0].tour, vec![0, 1, 2, 77]);
}

#[test]
fn default_selection_size_is_capped_parallelism() {
    let env = Environment::new(4, DefaultPureRandom::for_tests());
    assert_eq!(get_default_selection_size(&env), 4);
    let env = Environment::new(16, DefaultPureRandom::for_tests());
    assert_eq!(get_default_selection_size(&env), 8);
    let env = Environment::new(0, DefaultPureRandom::for_tests());
    assert_eq!(get_default_selection_size(&env), 1);
}

#[test]
fn default_population_degenerates_to_greedy_on_one_cpu() {
    let env = Environment::new(1, DefaultPureRandom::for_tests());
    assert!(matches!(get_default_population(&env), TargetPopulation::Greedy(_)));
    let env = Environment::new(4, DefaultPureRandom::for_tests());
    assert!(matches!(get_default_population(&env), TargetPopulation::Rosomaxa(_)));
}

#[test]
fn elitism_population_factory_builds_elitism() {
    let mut env = Environment::new(4, DefaultPureRandom::for_tests());
    let population = create_elitism_population(&mut env);
    assert!(matches!(population, TargetPopulation::Elitism(_)));
}

#[test]
fn default_heuristic_runs_one_generation() {
    let mut env = Environment::new(4, DefaultPureRandom::for_tests());
    let mut heuristic = get_default_heuristic(&mut env);

    let mut seed = solution_with_route(1, tour_with_jobs(6, 2, 3));
    seed.set_evaluation(100, vec![100, 6]);
    heuristic.initialize(vec![seed]);

    let batch = heuristic.select_batch();
    assert!(!batch.is_empty(), "an empty selection violates the loop invariant");

    let parent = &batch[0];
    let ruined = heuristic.ruin(parent);
    assert_eq!(ruined.cost, parent.cost, "cost rides along until re-evaluation");
    let total_stops: usize = ruined.routes.iter().map(|r| r.tour.len()).sum();
    let parent_stops: usize = parent.routes.iter().map(|r| r.tour.len()).sum();
    assert!(total_stops <= parent_stops);

    // The external collaborators would rebuild and evaluate here; a cheaper
    // candidate is always accepted.
    let mut candidate = ruined;
    candidate.set_evaluation(90, vec![90, 6]);
    let mut stream = heuristic.derive_stream();
    assert!(heuristic.update(candidate, parent, &mut stream));

    heuristic.next_generation();
    assert!(!heuristic.should_terminate(2));
    heuristic.next_generation();
    assert!(heuristic.should_terminate(2));
}

#[test]
fn ruin_pass_counters_start_at_the_limits() {
    let limits =
        RuinLimitsEx { max_ruined_jobs: 3, max_ruined_activities: 5, max_affected_routes: 1 };
    let removal = JobRemoval::new(&limits);
    assert_eq!(removal.jobs_left, 3);
    assert_eq!(removal.activities_left, 5);
    assert_eq!(removal.routes_left, 1);
}

#[test]
fn elitism_select_indices_are_distinct_and_in_range() {
    let random = DefaultPureRandom::with_seed(77);
    let mut population = ElitismPopulation::new(random, 6, 4).unwrap();
    for cost in [9, 4, 6, 2, 8, 5] {
        population.accept(solution_with_cost(cost));
    }
    for _ in 0..50 {
        let picked = population.select_indices();
        assert_eq!(picked.len(), 4);
        for i in 0..picked.len() {
            assert!(picked[i] < 6);
            for j in 0..i {
                assert_ne!(picked[i], picked[j], "drawn without replacement");
            }
        }
    }
}

#[test]
fn fronts_respect_domination_on_a_seeded_batch() {
    let mut random = DefaultPureRandom::with_seed(2024);
    let mut objectives: Vec<Vec<u64>> = Vec::new();
    for _ in 0..40 {
        let a = random.uniform_int(0, 9) as u64;
        let b = random.uniform_int(0, 9) as u64;
        objectives.push(vec![a, b]);
    }
    let dominates =
        |x: &Vec<u64>, y: &Vec<u64>| x[0] <= y[0] && x[1] <= y[1] && (x[0] < y[0] || x[1] < y[1]);
    let ranks = compute_fronts(&objectives);
    assert_eq!(ranks.len(), objectives.len());
    for i in 0..objectives.len() {
        let non_dominated = (0..objectives.len()).all(|j| !dominates(&objectives[j], &objectives[i]));
        assert_eq!(ranks[i] == 0, non_dominated);
        for j in 0..objectives.len() {
            if dominates(&objectives[j], &objectives[i]) {
                assert!(ranks[j] < ranks[i], "a dominator stands in an earlier front");
            }
        }
    }
}

#[test]
fn rosomaxa_drain_takes_everything_out() {
    let config = RosomaxaConfig::new_with_defaults(4);
    let mut population = RosomaxaPopulation::new(config).unwrap();
    for i in 0..10u64 {
        let mut s = solution_with_cost(10 + i);
        s.set_evaluation(10 + i, vec![i * 3000, i * 500]);
        population.accept(s);
    }
    let before = population.size();
    let drained = population.drain();
    assert_eq!(drained.len(), before);
    assert_eq!(population.size(), 0);
}

#[test]
fn ruin_passes_do_remove_stops() {
    let mut env = Environment::new(4, DefaultPureRandom::with_seed(31));
    let mut heuristic = get_default_heuristic(&mut env);
    let mut seed = solution_with_route(1, tour_with_jobs(8, 1, 2));
    seed.set_evaluation(9, vec![9, 1]);
    let parent_stops: usize = seed.routes.iter().map(|r| r.tour.len()).sum();
    heuristic.initialize(vec![seed]);

    let batch = heuristic.select_batch();
    let mut removed_any = false;
    for _ in 0..20 {
        let ruined = heuristic.ruin(&batch[0]);
        let stops: usize = ruined.routes.iter().map(|r| r.tour.len()).sum();
        assert!(stops <= parent_stops);
        removed_any |= stops < parent_stops;
    }
    assert!(removed_any, "twenty passes left every stop in place");
}

#[test]
fn ruin_conserves_vehicles_and_grows_required_when_stops_leave() {
    let mut env = Environment::new(4, DefaultPureRandom::with_seed(808));
    let mut heuristic = get_default_heuristic(&mut env);
    let mut seed = solution_with_route(9, tour_with_jobs(7, 0, 2));
    seed.set_evaluation(8, vec![8, 1]);
    heuristic.initialize(vec![seed]);
    let batch = heuristic.select_batch();
    let parent = &batch[0];
    let parent_stops: usize = parent.routes.iter().map(|r| r.tour.len()).sum();

    for _ in 0..10 {
        let ruined = heuristic.ruin(parent);
        let stops: usize = ruined.routes.iter().map(|r| r.tour.len()).sum();
        assert!(stops <= parent_stops);
        if stops < parent_stops {
            assert!(ruined.required.len() > parent.required.len());
        }
        assert_eq!(
            ruined.routes.len() + ruined.registry.len(),
            parent.routes.len() + parent.registry.len(),
            "every dropped route returns exactly one vehicle"
        );
        assert!(ruined.required.starts_with(&parent.required));
        assert!(ruined.registry.starts_with(&parent.registry));
    }
}

#[test]
fn initialize_offers_every_seed_to_the_population() {
    // One CPU degenerates to the greedy population, so the cheapest of the
    // offered seeds must be the one selected afterwards.
    let mut env = Environment::new(1, DefaultPureRandom::with_seed(17));
    let mut heuristic = get_default_heuristic(&mut env);
    let seeds = vec![solution_with_cost(10), solution_with_cost(5), solution_with_cost(7)];
    heuristic.initialize(seeds);
    let batch = heuristic.select_batch();
    assert_eq!(batch.len(), 1);
    assert_eq!(batch[0].cost, 5);
}

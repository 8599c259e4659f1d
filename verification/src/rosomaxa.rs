//! Adaptive self-organizing population: retained solutions are partitioned
//! across a small set of cells keyed by a low-dimensional projection of
//! each solution's objective vector, and each cell keeps a small ranked
//! elite. The population alternates an exploration phase, in which the map
//! may reorganize, and an exploitation phase, in which it is frozen and
//! selection concentrates on the best cells, switching on a rolling
//! no-improvement counter. Internal parameters are tunable configuration;
//! the stated contract is bounded retention, phase bookkeeping that is
//! deterministic in the accept history, and duplicate-free selection.

use vstd::prelude::*;
use crate::population::{ConfigurationError, insert_ranked, models, sorted_by_cost};
use crate::solution::{Solution, SolutionModel};

verus! {

/// Default ceiling on the number of cells of the map.
pub const DEFAULT_MAX_CELLS: usize = 16;

/// Default ceiling on the solutions one cell retains.
pub const DEFAULT_CELL_CAPACITY: usize = 4;

/// Default accepted candidates without improvement before the map freezes.
pub const DEFAULT_EXPLORATION_PATIENCE: u64 = 10;

/// Default width of one projection bucket.
pub const DEFAULT_CELL_WIDTH: u64 = 1024;

/// Tunable parameters of the adaptive population.
#[derive(Clone, Copy, Debug, PartialEq, Eq, Structural)]
pub struct RosomaxaConfig {
    /// How many solutions one generation draws.
    pub selection_size: usize,
    /// Most cells the map may hold.
    pub max_cells: usize,
    /// Most solutions one cell retains.
    pub cell_capacity: usize,
    /// Accepted candidates without improvement before the map freezes.
    pub exploration_patience: u64,
    /// Width of one projection bucket.
    pub cell_width: u64,
}

impl RosomaxaConfig {
    /// Positive sizes throughout, and a total retention bound that fits the
    /// machine.
    pub open spec fn wf(self) -> bool {
        &&& self.selection_size >= 1
        &&& self.max_cells >= 1
        &&& self.cell_capacity >= 1
        &&& self.cell_width >= 1
        &&& self.max_cells * self.cell_capacity <= usize::MAX
    }

    /// Default parameters for the given selection size.
    pub fn new_with_defaults(selection_size: usize) -> (r: Self)
        ensures
            r.selection_size == selection_size,
            r.max_cells == DEFAULT_MAX_CELLS,
            r.cell_capacity == DEFAULT_CELL_CAPACITY,
            r.exploration_patience == DEFAULT_EXPLORATION_PATIENCE,
            r.cell_width == DEFAULT_CELL_WIDTH,
            selection_size >= 1 ==> r.wf(),
            r.max_cells * r.cell_capacity <= usize::MAX,
    {
        RosomaxaConfig {
            selection_size,
            max_cells: DEFAULT_MAX_CELLS,
            cell_capacity: DEFAULT_CELL_CAPACITY,
            exploration_patience: DEFAULT_EXPLORATION_PATIENCE,
            cell_width: DEFAULT_CELL_WIDTH,
        }
    }
}

/// The two selection regimes the population alternates.
#[derive(Clone, Copy, Debug, PartialEq, Eq, Structural)]
pub enum SearchPhase {
    /// The map may reorganize; selection favors diversity across cells.
    Exploration,
    /// The map is frozen; selection concentrates on the best cells.
    Exploitation,
}

/// One cell of the map: a ranked elite of nearby solutions.
struct Cell {
    key_x: u64,
    key_y: u64,
    items: Vec<Solution>,
}

/// A cell is never empty, never over capacity, and ranked by cost.
spec fn cell_wf(c: Cell, capacity: int) -> bool {
    &&& 1 <= c.items@.len() <= capacity
    &&& sorted_by_cost(models(c.items@))
}

/// Solutions retained across all cells.
spec fn total_items(cells: Seq<Cell>) -> int
    decreases cells.len(),
{
    if cells.len() == 0 {
        0
    } else {
        total_items(cells.drop_last()) + cells.last().items@.len()
    }
}

/// The retained count is bounded by cells times capacity.
proof fn lemma_total_items_bound(cells: Seq<Cell>, capacity: int)
    requires
        capacity >= 0,
        forall|i: int| 0 <= i < cells.len() ==> #[trigger] cells[i].items@.len() <= capacity,
    ensures
        0 <= total_items(cells),
        total_items(cells) <= cells.len() * capacity,
    decreases cells.len(),
{
    if cells.len() > 0 {
        lemma_total_items_bound(cells.drop_last(), capacity);
        assert((cells.len() - 1) * capacity + capacity == cells.len() * capacity)
            by (nonlinear_arith);
    }
}

/// A map with a cell holds a solution: cells are never empty.
proof fn lemma_total_items_pos(cells: Seq<Cell>, capacity: int)
    requires
        capacity >= 0,
        cells.len() >= 1,
        forall|i: int| 0 <= i < cells.len() ==> #[trigger] cells[i].items@.len() <= capacity,
        forall|i: int| 0 <= i < cells.len() ==> #[trigger] cells[i].items@.len() >= 1,
    ensures
        total_items(cells) >= 1,
{
    lemma_total_items_bound(cells.drop_last(), capacity);
}

/// Cells drawn from, pairwise: what one cell has handed out never exceeds
/// what it holds, and the sums agree when every cell is exhausted.
proof fn lemma_taken_sum(taken: Seq<usize>, cells: Seq<Cell>)
    requires
        taken.len() == cells.len(),
        forall|i: int| 0 <= i < taken.len() ==> #[trigger] taken[i] <= cells[i].items@.len(),
    ensures
        sum_taken(taken) <= total_items(cells),
        (forall|i: int| 0 <= i < taken.len() ==> #[trigger] taken[i] >= cells[i].items@.len())
            ==> sum_taken(taken) == total_items(cells),
    decreases taken.len(),
{
    if taken.len() > 0 {
        assert(forall|i: int|
            0 <= i < taken.drop_last().len() ==> #[trigger] taken.drop_last()[i]
                <= cells.drop_last()[i].items@.len());
        lemma_taken_sum(taken.drop_last(), cells.drop_last());
        if forall|i: int| 0 <= i < taken.len() ==> #[trigger] taken[i] >= cells[i].items@.len() {
            assert(forall|i: int|
                0 <= i < taken.drop_last().len() ==> #[trigger] taken.drop_last()[i]
                    >= cells.drop_last()[i].items@.len());
        }
    }
}

/// Positions handed out so far.
spec fn sum_taken(taken: Seq<usize>) -> int
    decreases taken.len(),
{
    if taken.len() == 0 {
        0
    } else {
        sum_taken(taken.drop_last()) + taken.last()
    }
}

/// Handing one more position out raises the sum by one.
proof fn lemma_sum_taken_update(taken: Seq<usize>, c: int, v: usize)
    requires
        0 <= c < taken.len(),
        v == taken[c] + 1,
    ensures
        sum_taken(taken.update(c, v)) == sum_taken(taken) + 1,
    decreases taken.len(),
{
    if c == taken.len() - 1 {
        assert(taken.update(c, v).drop_last() =~= taken.drop_last());
    } else {
        assert(taken.update(c, v).drop_last() =~= taken.drop_last().update(c, v));
        lemma_sum_taken_update(taken.drop_last(), c, v);
    }
}

/// The adaptive population itself.
pub struct RosomaxaPopulation {
    config: RosomaxaConfig,
    cells: Vec<Cell>,
    phase: SearchPhase,
    no_improvement: u64,
    best_cost: Option<u64>,
}

impl RosomaxaPopulation {
    /// The configuration the population was built with.
    pub closed spec fn conf(self) -> RosomaxaConfig {
        self.config
    }

    /// How many solutions are retained across all cells.
    pub closed spec fn total(self) -> int {
        total_items(self.cells@)
    }

    /// Whether the map may still reorganize.
    pub closed spec fn exploring(self) -> bool {
        self.phase is Exploration
    }

    /// Accepted candidates since the last improvement.
    pub closed spec fn patience_count(self) -> int {
        self.no_improvement as int
    }

    /// The best cost seen across all accepted candidates.
    pub closed spec fn best(self) -> Option<u64> {
        self.best_cost
    }

    /// How many cells the map holds.
    pub closed spec fn cell_count(self) -> int {
        self.cells@.len() as int
    }

    /// How many solutions the given cell holds.
    pub closed spec fn cell_len(self, c: int) -> int {
        self.cells@[c].items@.len() as int
    }

    /// The solution at the given position of the given cell.
    pub closed spec fn cell_item(self, c: int, k: int) -> SolutionModel {
        self.cells@[c].items@[k]@
    }

    /// Whether the population retains the given solution in some cell.
    pub open spec fn retains(self, m: SolutionModel) -> bool {
        exists|c: int, k: int|
            0 <= c < self.cell_count() && 0 <= k < self.cell_len(c) && #[trigger] self.cell_item(
                c,
                k,
            ) == m
    }

    /// Bounded, well-keyed and ranked throughout.
    pub closed spec fn wf(self) -> bool {
        &&& self.config.wf()
        &&& self.cells@.len() <= self.config.max_cells
        &&& forall|i: int|
            0 <= i < self.cells@.len() ==> cell_wf(
                #[trigger] self.cells@[i],
                self.config.cell_capacity as int,
            )
    }

    /// Builds an empty adaptive population; a selection size of zero or a
    /// retention bound below one is rejected immediately, and nothing else
    /// is.
    pub fn new(config: RosomaxaConfig) -> (r: Result<Self, ConfigurationError>)
        requires
            config.cell_width >= 1,
            config.max_cells * config.cell_capacity <= usize::MAX,
        ensures
            (r is Ok) == (config.selection_size >= 1 && config.max_cells >= 1
                && config.cell_capacity >= 1),
            (match r {
                Ok(p) => p.wf() && p.conf() == config && p.total() == 0 && p.exploring()
                    && p.best() is None && p.patience_count() == 0,
                Err(e) => e == (if config.selection_size < 1 {
                    ConfigurationError::ZeroSelectionSize
                } else {
                    ConfigurationError::ZeroRetention
                }),
            }),
    {
        if config.selection_size < 1 {
            Err(ConfigurationError::ZeroSelectionSize)
        } else if config.max_cells < 1 || config.cell_capacity < 1 {
            Err(ConfigurationError::ZeroRetention)
        } else {
            Ok(
                RosomaxaPopulation {
                    config,
                    cells: Vec::new(),
                    phase: SearchPhase::Exploration,
                    no_improvement: 0,
                    best_cost: None,
                },
            )
        }
    }

    /// How many solutions are retained: never more than cells times
    /// capacity.
    pub fn size(&self) -> (r: usize)
        requires
            self.wf(),
        ensures
            r == self.total(),
            r <= self.conf().max_cells * self.conf().cell_capacity,
    {
        let ghost cap = self.config.cell_capacity as int;
        let mut acc: usize = 0;
        let mut i: usize = 0;
        while i < self.cells.len()
            invariant
                self.wf(),
                i <= self.cells@.len(),
                acc == total_items(self.cells@.take(i as int)),
                acc <= i * (self.config.cell_capacity as int),
            decreases self.cells@.len() - i,
        {
            proof {
                assert(self.cells@.take(i + 1).drop_last() =~= self.cells@.take(i as int));
                assert(self.cells@.take(i + 1).last() == self.cells@[i as int]);
                assert((i + 1) * (self.config.cell_capacity as int) == i * (
                self.config.cell_capacity as int) + self.config.cell_capacity) by (nonlinear_arith);
                assert((i + 1) * (self.config.cell_capacity as int) <= self.config.max_cells * (
                self.config.cell_capacity as int)) by (nonlinear_arith)
                    requires
                        i + 1 <= self.config.max_cells,
                        self.config.cell_capacity >= 0,
                ;
            }
            acc = acc + self.cells[i].items.len();
            i = i + 1;
        }
        proof {
            assert(self.cells@.take(self.cells@.len() as int) =~= self.cells@);
            lemma_total_items_bound(self.cells@, self.config.cell_capacity as int);
            assert(self.cells@.len() * (self.config.cell_capacity as int) <= self.config.max_cells
                * (self.config.cell_capacity as int)) by (nonlinear_arith)
                requires
                    self.cells@.len() <= self.config.max_cells,
                    self.config.cell_capacity >= 0,
            ;
        }
        acc
    }

    /// Whether the map may still reorganize.
    pub fn is_exploring(&self) -> (r: bool)
        ensures
            r == self.exploring(),
    {
        match self.phase {
            SearchPhase::Exploration => true,
            SearchPhase::Exploitation => false,
        }
    }

    /// The best cost seen across all accepted candidates.
    pub fn best_cost(&self) -> (r: Option<u64>)
        ensures
            r == self.best(),
    {
        self.best_cost
    }

    /// Offers a candidate. The best-cost record and the no-improvement
    /// counter are updated deterministically from the accept history alone,
    /// the phase follows the counter against the configured patience, and
    /// retention stays within the cells-times-capacity bound. The candidate
    /// lands in the cell its projected key selects; a full, frozen map
    /// without a matching cell retains it only when it improves on the best
    /// record, by reorganizing the worst cell.
    pub fn accept(&mut self, candidate: Solution)
        requires
            old(self).wf(),
        ensures
            final(self).wf(),
            final(self).conf() == old(self).conf(),
            final(self).total() <= old(self).conf().max_cells * old(self).conf().cell_capacity,
            final(self).best() == Some(
                (match old(self).best() {
                    None => candidate@.cost,
                    Some(b) => if candidate@.cost < b {
                        candidate@.cost
                    } else {
                        b
                    },
                }),
            ),
            final(self).patience_count() == (match old(self).best() {
                None => 0int,
                Some(b) => if candidate@.cost < b {
                    0int
                } else if old(self).patience_count() < u64::MAX {
                    old(self).patience_count() + 1
                } else {
                    old(self).patience_count()
                },
            }),
            final(self).exploring() == (final(self).patience_count() < old(
                self,
            ).conf().exploration_patience),
            final(self).total() >= 1,
    {
        let improved = match self.best_cost {
            None => true,
            Some(b) => candidate.cost < b,
        };
        if improved {
            self.best_cost = Some(candidate.cost);
            self.no_improvement = 0;
        } else if self.no_improvement < u64::MAX {
            self.no_improvement = self.no_improvement + 1;
        }
        self.phase = if self.no_improvement >= self.config.exploration_patience {
            SearchPhase::Exploitation
        } else {
            SearchPhase::Exploration
        };
        let f0 = if candidate.fitness.len() > 0 {
            candidate.fitness[0]
        } else {
            candidate.cost
        };
        let f1 = if candidate.fitness.len() > 1 {
            candidate.fitness[1]
        } else {
            0
        };
        let kx = f0 / self.config.cell_width;
        let ky = f1 / self.config.cell_width;
        let found = find_cell(&self.cells, kx, ky);
        let ghost cap = self.config.cell_capacity as int;
        if found < self.cells.len() {
            let mut cell = self.cells.remove(found);
            insert_ranked(&mut cell.items, candidate, self.config.cell_capacity);
            self.cells.insert(found, cell);
            proof {
                assert forall|i: int| 0 <= i < self.cells@.len() implies cell_wf(
                    #[trigger] self.cells@[i],
                    cap,
                ) by {
                    if i != found {
                        assert(self.cells@[i] == old(self).cells@[i]);
                    }
                }
            }
        } else if self.cells.len() < self.config.max_cells {
            let mut items: Vec<Solution> = Vec::new();
            items.push(candidate);
            self.cells.push(Cell { key_x: kx, key_y: ky, items });
            proof {
                assert forall|i: int| 0 <= i < self.cells@.len() implies cell_wf(
                    #[trigger] self.cells@[i],
                    cap,
                ) by {
                    if i < self.cells@.len() - 1 {
                        assert(self.cells@[i] == old(self).cells@[i]);
                    }
                }
            }
        } else {
            let exploring = match self.phase {
                SearchPhase::Exploration => true,
                SearchPhase::Exploitation => false,
            };
            if improved || exploring {
                let worst = find_worst_cell(&self.cells);
                if worst < self.cells.len() {
                    let _ = self.cells.remove(worst);
                    let mut items: Vec<Solution> = Vec::new();
                    items.push(candidate);
                    self.cells.insert(worst, Cell { key_x: kx, key_y: ky, items });
                    proof {
                        assert forall|i: int| 0 <= i < self.cells@.len() implies cell_wf(
                            #[trigger] self.cells@[i],
                            cap,
                        ) by {
                            if i != worst {
                                assert(self.cells@[i] == old(self).cells@[i]);
                            }
                        }
                    }
                }
            }
        }
        proof {
            lemma_total_items_bound(self.cells@, cap);
            assert(self.cells@.len() * cap <= self.config.max_cells * cap) by (nonlinear_arith)
                requires
                    self.cells@.len() <= self.config.max_cells,
                    cap >= 0,
            ;
            assert(self.cells@.len() >= 1);
            lemma_total_items_pos(self.cells@, cap);
        }
    }

    /// Picks the distinct positions of the next batch: as many as the
    /// selection size asks for and the population can give, never the same
    /// position twice. Exploring, cells are visited round-robin for
    /// diversity; exploiting, the cheapest remaining member is taken each
    /// round.
    pub fn select_positions(&self) -> (picks: Vec<(usize, usize)>)
        requires
            self.wf(),
        ensures
            picks@.len() == (if self.conf().selection_size <= self.total() {
                self.conf().selection_size as int
            } else {
                self.total()
            }),
            forall|i: int|
                0 <= i < picks@.len() ==> (#[trigger] picks@[i]).0 < self.cell_count()
                    && picks@[i].1 < self.cell_len(picks@[i].0 as int),
            forall|i: int, j: int| 0 <= i < j < picks@.len() ==> picks@[i] != picks@[j],
    {
        let n = self.cells.len();
        let k = self.config.selection_size;
        let mut taken: Vec<usize> = Vec::new();
        let mut i: usize = 0;
        while i < n
            invariant
                i <= n,
                taken@.len() == i,
                forall|a: int| 0 <= a < i ==> taken@[a] == 0,
            decreases n - i,
        {
            taken.push(0);
            i = i + 1;
        }
        proof {
            lemma_taken_sum(taken@, self.cells@);
            lemma_zero_sum(taken@);
        }
        let mut picks: Vec<(usize, usize)> = Vec::new();
        loop
            invariant_except_break
                self.wf(),
                n == self.cells@.len(),
                k == self.config.selection_size,
                taken@.len() == n,
                picks@.len() <= k,
                sum_taken(taken@) == picks@.len(),
                forall|c: int| 0 <= c < n ==> #[trigger] taken@[c] <= self.cells@[c].items@.len(),
                forall|i: int|
                    0 <= i < picks@.len() ==> (#[trigger] picks@[i]).0 < n && picks@[i].1
                        < taken@[picks@[i].0 as int],
                forall|i: int, j: int| 0 <= i < j < picks@.len() ==> picks@[i] != picks@[j],
            ensures
                picks@.len() == (if self.conf().selection_size <= self.total() {
                    self.conf().selection_size as int
                } else {
                    self.total()
                }),
                forall|i: int|
                    0 <= i < picks@.len() ==> (#[trigger] picks@[i]).0 < self.cells@.len()
                        && picks@[i].1 < self.cells@[picks@[i].0 as int].items@.len(),
                forall|i: int, j: int| 0 <= i < j < picks@.len() ==> picks@[i] != picks@[j],
            decreases k - picks.len(),
        {
            if picks.len() >= k {
                proof {
                    lemma_taken_sum(taken@, self.cells@);
                }
                break;
            }
            let exploring = match self.phase {
                SearchPhase::Exploration => true,
                SearchPhase::Exploitation => false,
            };
            let c = if exploring {
                next_cell_round_robin(&self.cells, &taken, picks.len())
            } else {
                next_cell_cheapest(&self.cells, &taken)
            };
            if c >= n {
                // Every cell is exhausted: the whole population was picked.
                proof {
                    lemma_taken_sum(taken@, self.cells@);
                }
                break;
            }
            let t = taken[c];
            let ghost taken0 = taken@;
            let ghost picks0 = picks@;
            proof {
                lemma_sum_taken_update(taken0, c as int, (t + 1) as usize);
            }
            picks.push((c, t));
            let _ = taken.remove(c);
            taken.insert(c, t + 1);
            proof {
                assert(taken@ =~= taken0.update(c as int, (t + 1) as usize));
                assert forall|i: int| 0 <= i < picks@.len() implies (#[trigger] picks@[i]).0 < n
                    && picks@[i].1 < taken@[picks@[i].0 as int] by {
                    if i < picks0.len() {
                        assert(picks@[i] == picks0[i]);
                    } else {
                        assert(picks@[i] == (c, t));
                    }
                }
                assert forall|i: int, j: int| 0 <= i < j < picks@.len() implies picks@[i]
                    != picks@[j] by {
                    if j < picks0.len() {
                        assert(picks@[i] == picks0[i] && picks@[j] == picks0[j]);
                    } else {
                        assert(picks@[j] == (c, t));
                        assert(picks@[i] == picks0[i]);
                        if picks0[i].0 == c {
                            assert(picks0[i].1 < taken0[c as int]);
                        }
                    }
                }
            }
        }
        picks
    }

    /// The batch for the next generation: owned copies of the members at
    /// the picked positions, distinct positions throughout, sized to the
    /// selection size or to the whole population when it is smaller.
    pub fn select(&self) -> (r: Vec<Solution>)
        requires
            self.wf(),
        ensures
            r@.len() == (if self.conf().selection_size <= self.total() {
                self.conf().selection_size as int
            } else {
                self.total()
            }),
            self.total() >= 1 ==> r@.len() >= 1,
            forall|i: int| 0 <= i < r@.len() ==> self.retains(#[trigger] r@[i]@),
            (exists|picks: Seq<(int, int)>|
                {
                    &&& #[trigger] picks.len() == r@.len()
                    &&& (forall|i: int|
                        0 <= i < picks.len() ==> 0 <= (#[trigger] picks[i]).0 < self.cell_count()
                            && 0 <= picks[i].1 < self.cell_len(picks[i].0) && r@[i]@
                            == self.cell_item(picks[i].0, picks[i].1))
                    &&& (forall|i: int, j: int| 0 <= i < j < picks.len() ==> picks[i] != picks[j])
                }),
    {
        let picks = self.select_positions();
        let mut out: Vec<Solution> = Vec::new();
        let mut i: usize = 0;
        while i < picks.len()
            invariant
                self.wf(),
                i <= picks@.len(),
                out@.len() == i,
                forall|a: int|
                    0 <= a < picks@.len() ==> (#[trigger] picks@[a]).0 < self.cells@.len()
                        && picks@[a].1 < self.cells@[picks@[a].0 as int].items@.len(),
                forall|a: int, b: int| 0 <= a < b < picks@.len() ==> picks@[a] != picks@[b],
                forall|a: int|
                    0 <= a < i ==> #[trigger] out@[a]@ == self.cell_item(
                        picks@[a].0 as int,
                        picks@[a].1 as int,
                    ),
            decreases picks@.len() - i,
        {
            let (c, p) = (picks[i].0, picks[i].1);
            out.push(self.cells[c].items[p].duplicate());
            i = i + 1;
        }
        proof {
            let w = picks@.map_values(|pr: (usize, usize)| (pr.0 as int, pr.1 as int));
            assert forall|a: int|
                0 <= a < w.len() implies ({
                    let pair = #[trigger] w[a];
                    0 <= pair.0 < self.cell_count() && 0 <= pair.1 < self.cell_len(pair.0)
                        && out@[a]@ == self.cell_item(pair.0, pair.1)
                }) by {
                assert(w[a] == (picks@[a].0 as int, picks@[a].1 as int));
            }
            assert forall|a: int, b: int| 0 <= a < b < w.len() implies w[a] != w[b] by {
                assert(picks@[a] != picks@[b]);
            }
            assert forall|a: int| 0 <= a < out@.len() implies self.retains(
                #[trigger] out@[a]@,
            ) by {
                assert(self.cell_item(picks@[a].0 as int, picks@[a].1 as int) == out@[a]@);
            }
        }
        out
    }

    /// Takes every retained solution out, cell by cell.
    pub fn drain(&mut self) -> (r: Vec<Solution>)
        requires
            old(self).wf(),
        ensures
            final(self).wf(),
            final(self).conf() == old(self).conf(),
            final(self).total() == 0,
            r@.len() == old(self).total(),
    {
        let mut out: Vec<Solution> = Vec::new();
        loop
            invariant_except_break
                self.config == old(self).config,
                self.phase == old(self).phase,
                self.no_improvement == old(self).no_improvement,
                self.best_cost == old(self).best_cost,
                self.wf(),
                out@.len() + total_items(self.cells@) == old(self).total(),
            ensures
                self.config == old(self).config,
                self.phase == old(self).phase,
                self.no_improvement == old(self).no_improvement,
                self.best_cost == old(self).best_cost,
                self.wf(),
                self.cells@.len() == 0,
                out@.len() == old(self).total(),
            decreases self.cells.len(),
        {
            let cell = self.cells.pop();
            match cell {
                None => {
                    proof {
                        assert(total_items(self.cells@) == 0);
                    }
                    break;
                },
                Some(mut cell) => {
                    proof {
                        lemma_total_items_bound(self.cells@, self.config.cell_capacity as int);
                    }
                    out.append(&mut cell.items);
                },
            }
        }
        out
    }
}

/// All-zero counters sum to zero.
proof fn lemma_zero_sum(taken: Seq<usize>)
    requires
        forall|a: int| 0 <= a < taken.len() ==> taken[a] == 0,
    ensures
        sum_taken(taken) == 0,
    decreases taken.len(),
{
    if taken.len() > 0 {
        lemma_zero_sum(taken.drop_last());
    }
}

/// The index of the cell with the given key, or the cell count when none
/// matches.
fn find_cell(cells: &Vec<Cell>, kx: u64, ky: u64) -> (r: usize)
    ensures
        r <= cells@.len(),
        r < cells@.len() ==> cells@[r as int].key_x == kx && cells@[r as int].key_y == ky,
{
    let mut i: usize = 0;
    while i < cells.len()
        invariant
            i <= cells@.len(),
        decreases cells@.len() - i,
    {
        if cells[i].key_x == kx && cells[i].key_y == ky {
            return i;
        }
        i = i + 1;
    }
    i
}

/// The index of the cell whose best member costs most, or the cell count on
/// an empty map.
fn find_worst_cell(cells: &Vec<Cell>) -> (r: usize)
    requires
        forall|i: int| 0 <= i < cells@.len() ==> (#[trigger] cells@[i]).items@.len() >= 1,
    ensures
        r <= cells@.len(),
        cells@.len() >= 1 ==> r < cells@.len(),
{
    if cells.len() == 0 {
        return 0;
    }
    let mut worst: usize = 0;
    let mut i: usize = 1;
    while i < cells.len()
        invariant
            forall|j: int| 0 <= j < cells@.len() ==> (#[trigger] cells@[j]).items@.len() >= 1,
            i <= cells@.len(),
            worst < cells@.len(),
            1 <= i,
        decreases cells@.len() - i,
    {
        if cells[i].items[0].cost > cells[worst].items[0].cost {
            worst = i;
        }
        i = i + 1;
    }
    worst
}

/// The next cell with a member left, scanning round-robin from the cursor;
/// the cell count exactly when every cell is exhausted.
fn next_cell_round_robin(cells: &Vec<Cell>, taken: &Vec<usize>, cursor: usize) -> (r: usize)
    requires
        taken@.len() == cells@.len(),
    ensures
        r <= cells@.len(),
        r < cells@.len() ==> taken@[r as int] < cells@[r as int].items@.len(),
        r == cells@.len() ==> forall|c: int|
            0 <= c < cells@.len() ==> #[trigger] taken@[c] >= cells@[c].items@.len(),
{
    let n = cells.len();
    if n == 0 {
        return 0;
    }
    let start = cursor % n;
    let mut c = start;
    while c < n
        invariant
            n == cells@.len(),
            taken@.len() == n,
            start <= c <= n,
            forall|j: int| start <= j < c ==> #[trigger] taken@[j] >= cells@[j].items@.len(),
        decreases n - c,
    {
        if taken[c] < cells[c].items.len() {
            return c;
        }
        c = c + 1;
    }
    let mut c2: usize = 0;
    while c2 < start
        invariant
            n == cells@.len(),
            taken@.len() == n,
            start < n,
            c2 <= start,
            forall|j: int| start <= j < n ==> #[trigger] taken@[j] >= cells@[j].items@.len(),
            forall|j: int| 0 <= j < c2 ==> #[trigger] taken@[j] >= cells@[j].items@.len(),
        decreases start - c2,
    {
        if taken[c2] < cells[c2].items.len() {
            return c2;
        }
        c2 = c2 + 1;
    }
    n
}

/// The cell whose next remaining member is cheapest; the cell count exactly
/// when every cell is exhausted.
fn next_cell_cheapest(cells: &Vec<Cell>, taken: &Vec<usize>) -> (r: usize)
    requires
        taken@.len() == cells@.len(),
    ensures
        r <= cells@.len(),
        r < cells@.len() ==> taken@[r as int] < cells@[r as int].items@.len(),
        r == cells@.len() ==> forall|c: int|
            0 <= c < cells@.len() ==> #[trigger] taken@[c] >= cells@[c].items@.len(),
{
    let n = cells.len();
    let mut best: usize = n;
    let mut i: usize = 0;
    while i < n
        invariant
            n == cells@.len(),
            taken@.len() == n,
            i <= n,
            best <= n,
            best < n ==> taken@[best as int] < cells@[best as int].items@.len(),
            best == n ==> forall|c: int|
                0 <= c < i ==> #[trigger] taken@[c] >= cells@[c].items@.len(),
        decreases n - i,
    {
        if taken[i] < cells[i].items.len() {
            if best == n {
                best = i;
            } else if cells[i].items[taken[i]].cost < cells[best].items[taken[best]].cost {
                best = i;
            }
        }
        i = i + 1;
    }
    best
}

} // verus!

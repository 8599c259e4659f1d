//! Populations retain candidate solutions between generations and select
//! the parents of the next one. The greedy variant holds exactly one
//! solution; the elitism variant holds a ranked, bounded set and selects a
//! subset without replacement, biased towards better-ranked members.

use vstd::prelude::*;
use crate::random::{DefaultPureRandom, PureRandom};
use crate::solution::{Solution, SolutionModel};

verus! {

/// Fatal misconfiguration, rejected before any search starts.
#[derive(Clone, Copy, Debug, PartialEq, Eq, Structural)]
pub enum ConfigurationError {
    /// A selection size of zero can never feed a generation.
    ZeroSelectionSize,
    /// A retention bound below one can never hold a solution.
    ZeroRetention,
}

/// The mathematical model of a batch of retained solutions.
pub open spec fn models(items: Seq<Solution>) -> Seq<SolutionModel> {
    items.map_values(|s: Solution| s@)
}

/// Ranked by cost: cheaper solutions stand earlier.
pub open spec fn sorted_by_cost(s: Seq<SolutionModel>) -> bool {
    forall|i: int, j: int| 0 <= i < j < s.len() ==> s[i].cost <= s[j].cost
}

/// Where `accept` puts a candidate: after every member that costs no more,
/// so that among equals the most recently inserted stands last and is the
/// first to be evicted.
pub open spec fn insert_by_cost(s: Seq<SolutionModel>, x: SolutionModel) -> Seq<SolutionModel>
    decreases s.len(),
{
    if s.len() == 0 {
        seq![x]
    } else if s[0].cost <= x.cost {
        seq![s[0]] + insert_by_cost(s.drop_first(), x)
    } else {
        seq![x] + s
    }
}

/// The insertion point of `insert_by_cost` is the first index whose member
/// costs strictly more than the candidate.
proof fn lemma_insert_by_cost_at(s: Seq<SolutionModel>, x: SolutionModel, i: int)
    requires
        0 <= i <= s.len(),
        forall|j: int| 0 <= j < i ==> s[j].cost <= x.cost,
        i < s.len() ==> s[i].cost > x.cost,
    ensures
        insert_by_cost(s, x) == s.take(i) + seq![x] + s.skip(i),
    decreases i,
{
    if i == 0 {
        assert(insert_by_cost(s, x) =~= s.take(0) + seq![x] + s.skip(0));
    } else {
        assert(s[0].cost <= x.cost);
        lemma_insert_by_cost_at(s.drop_first(), x, i - 1);
        assert(insert_by_cost(s, x) =~= s.take(i) + seq![x] + s.skip(i));
    }
}

/// Inserts a candidate into a batch ranked by cost and evicts the worst
/// members until the batch fits the bound again, evicting the most recently
/// inserted among equals. The candidate survives exactly when the batch was
/// not full or some member costs strictly more.
pub fn insert_ranked(items: &mut Vec<Solution>, candidate: Solution, bound: usize) -> (kept: bool)
    requires
        bound >= 1,
        sorted_by_cost(models(old(items)@)),
        old(items)@.len() <= bound,
    ensures
        sorted_by_cost(models(final(items)@)),
        1 <= final(items)@.len() <= bound,
        models(final(items)@) == ({
            let ins = insert_by_cost(models(old(items)@), candidate@);
            if ins.len() <= bound {
                ins
            } else {
                ins.take(bound as int)
            }
        }),
        kept == (old(items)@.len() < bound || models(old(items)@)[bound - 1].cost
            > candidate@.cost),
{
    let ghost m = models(items@);
    let n = items.len();
    let mut idx: usize = 0;
    loop
        invariant_except_break
            n == items@.len(),
            idx <= n,
            forall|j: int| 0 <= j < idx ==> models(items@)[j].cost <= candidate@.cost,
        invariant
            *items == *old(items),
            n == items@.len(),
        ensures
            idx <= n,
            forall|j: int| 0 <= j < idx ==> models(items@)[j].cost <= candidate@.cost,
            idx < n ==> models(items@)[idx as int].cost > candidate@.cost,
        decreases n - idx,
    {
        if idx >= n {
            break;
        }
        if items[idx].cost > candidate.cost {
            break;
        }
        idx = idx + 1;
    }
    proof {
        lemma_insert_by_cost_at(m, candidate@, idx as int);
    }
    items.insert(idx, candidate);
    let ghost ins = insert_by_cost(m, candidate@);
    proof {
        assert(models(items@) =~= ins);
    }
    let kept: bool;
    if items.len() > bound {
        let _ = items.pop();
        kept = idx < bound;
        proof {
            assert(models(items@) =~= ins.take(bound as int));
            // The worst member stands last, so on a full batch the candidate
            // survives exactly when the last old member costs strictly more.
            if idx < bound {
                assert(m[bound - 1].cost >= m[idx as int].cost);
            } else {
                assert(m[bound - 1].cost <= candidate@.cost);
            }
        }
    } else {
        kept = true;
    }
    kept
}

/// Holds exactly one solution: the best seen so far.
pub struct GreedyPopulation {
    best: Option<Solution>,
}

impl GreedyPopulation {
    /// The retained solution, if any.
    pub closed spec fn model(self) -> Option<SolutionModel> {
        match self.best {
            Some(s) => Some(s@),
            None => None,
        }
    }

    /// Builds the population, optionally seeded with one solution.
    pub fn new(initial: Option<Solution>) -> (r: Self)
        ensures
            r.model() == (match initial {
                Some(s) => Some(s@),
                None => None::<SolutionModel>,
            }),
    {
        GreedyPopulation { best: initial }
    }

    /// Offers a candidate: it replaces the held solution exactly when it
    /// costs no more (or when nothing is held yet).
    pub fn accept(&mut self, candidate: Solution) -> (replaced: bool)
        ensures
            replaced == (match old(self).model() {
                Some(m) => candidate@.cost <= m.cost,
                None => true,
            }),
            final(self).model() == (if replaced {
                Some(candidate@)
            } else {
                old(self).model()
            }),
    {
        let replace = match &self.best {
            None => true,
            Some(b) => candidate.cost <= b.cost,
        };
        if replace {
            self.best = Some(candidate);
        }
        replace
    }

    /// How many solutions are retained: never more than one.
    pub fn size(&self) -> (r: usize)
        ensures
            r <= 1,
            r == (if self.model() is Some {
                1int
            } else {
                0int
            }),
    {
        match &self.best {
            Some(_) => 1,
            None => 0,
        }
    }

    /// The batch for the next generation: always the one held solution.
    pub fn select(&self) -> (r: Vec<Solution>)
        requires
            self.model() is Some,
        ensures
            r@.len() == 1,
            r@[0]@ == self.model()->Some_0,
    {
        let mut out: Vec<Solution> = Vec::new();
        match &self.best {
            Some(b) => out.push(b.duplicate()),
            None => {
                proof {
                    assert(false);
                }
            },
        }
        out
    }

    /// Takes every retained solution out.
    pub fn drain(&mut self) -> (r: Vec<Solution>)
        ensures
            final(self).model() is None,
            r@.len() == (if old(self).model() is Some {
                1int
            } else {
                0int
            }),
            old(self).model() is Some ==> r@[0]@ == old(self).model()->Some_0,
    {
        let mut out: Vec<Solution> = Vec::new();
        let b = self.best.take();
        match b {
            Some(s) => out.push(s),
            None => {},
        }
        out
    }
}

/// Holds up to a configured number of solutions, ranked by cost.
pub struct ElitismPopulation {
    items: Vec<Solution>,
    max_population_size: usize,
    selection_size: usize,
    random: DefaultPureRandom,
}

impl ElitismPopulation {
    /// The retained solutions, cheapest first.
    pub closed spec fn model(self) -> Seq<SolutionModel> {
        models(self.items@)
    }

    /// The configured retention bound.
    pub closed spec fn max_size(self) -> int {
        self.max_population_size as int
    }

    /// The configured selection size.
    pub closed spec fn sel_size(self) -> int {
        self.selection_size as int
    }

    /// Bounded and ranked, under positive configuration.
    pub closed spec fn wf(self) -> bool {
        &&& self.max_population_size >= 1
        &&& self.selection_size >= 1
        &&& self.model().len() <= self.max_population_size
        &&& sorted_by_cost(self.model())
    }

    /// Builds an empty population; a selection size of zero or a retention
    /// bound below one is rejected immediately, and nothing else is.
    pub fn new(random: DefaultPureRandom, max_population_size: usize, selection_size: usize) -> (r:
        Result<Self, ConfigurationError>)
        ensures
            (r is Ok) == (max_population_size >= 1 && selection_size >= 1),
            (match r {
                Ok(p) => p.wf() && p.model().len() == 0 && p.max_size() == max_population_size
                    && p.sel_size() == selection_size,
                Err(e) => e == (if selection_size < 1 {
                    ConfigurationError::ZeroSelectionSize
                } else {
                    ConfigurationError::ZeroRetention
                }),
            }),
    {
        if selection_size < 1 {
            Err(ConfigurationError::ZeroSelectionSize)
        } else if max_population_size < 1 {
            Err(ConfigurationError::ZeroRetention)
        } else {
            Ok(
                ElitismPopulation {
                    items: Vec::new(),
                    max_population_size,
                    selection_size,
                    random,
                },
            )
        }
    }

    /// Offers a candidate: it is inserted by rank, then the worst members
    /// are evicted until the retention bound holds again, evicting the most
    /// recently inserted among equals. The candidate survives exactly when
    /// the population was not full or some member costs strictly more.
    pub fn accept(&mut self, candidate: Solution) -> (kept: bool)
        requires
            old(self).wf(),
        ensures
            final(self).wf(),
            final(self).max_size() == old(self).max_size(),
            final(self).sel_size() == old(self).sel_size(),
            final(self).model() == ({
                let ins = insert_by_cost(old(self).model(), candidate@);
                if ins.len() <= old(self).max_size() {
                    ins
                } else {
                    ins.take(old(self).max_size())
                }
            }),
            final(self).model().len() >= 1,
            kept == (old(self).model().len() < old(self).max_size() || old(self).model()[old(
                self,
            ).max_size() - 1].cost > candidate@.cost),
    {
        insert_ranked(&mut self.items, candidate, self.max_population_size)
    }

    /// How many solutions are retained: never more than the bound.
    pub fn size(&self) -> (r: usize)
        requires
            self.wf(),
        ensures
            r == self.model().len(),
            r <= self.max_size(),
    {
        self.items.len()
    }

    /// Takes every retained solution out, cheapest first.
    pub fn drain(&mut self) -> (r: Vec<Solution>)
        requires
            old(self).wf(),
        ensures
            final(self).wf(),
            final(self).model().len() == 0,
            final(self).max_size() == old(self).max_size(),
            final(self).sel_size() == old(self).sel_size(),
            models(r@) == old(self).model(),
    {
        let mut out: Vec<Solution> = Vec::new();
        self.items.append(&mut out);
        let r = self.items.split_off(0);
        proof {
            assert(models(r@) =~= old(self).model());
            assert(models(self.items@) =~= Seq::<SolutionModel>::empty());
        }
        r
    }

    /// Picks the members of the next batch: as many distinct positions as
    /// the selection size asks for and the population can give, drawn
    /// without replacement with weight inverted in rank, so better-ranked
    /// members are more likely.
    pub fn select_indices(&mut self) -> (picked: Vec<usize>)
        requires
            old(self).wf(),
        ensures
            final(self).wf(),
            final(self).model() == old(self).model(),
            final(self).max_size() == old(self).max_size(),
            final(self).sel_size() == old(self).sel_size(),
            picked@.len() == (if old(self).sel_size() <= old(self).model().len() {
                old(self).sel_size()
            } else {
                old(self).model().len() as int
            }),
            forall|i: int| 0 <= i < picked@.len() ==> picked@[i] < old(self).model().len(),
            forall|i: int, j: int| 0 <= i < j < picked@.len() ==> picked@[i] != picked@[j],
    {
        let n = self.items.len();
        let k = if self.selection_size <= n {
            self.selection_size
        } else {
            n
        };
        let mut candidates: Vec<usize> = Vec::new();
        let mut i: usize = 0;
        while i < n
            invariant
                i <= n,
                candidates@.len() == i,
                forall|a: int| 0 <= a < i ==> candidates@[a] == a,
            decreases n - i,
        {
            candidates.push(i);
            i = i + 1;
        }
        let mut picked: Vec<usize> = Vec::new();
        while picked.len() < k
            invariant
                k <= n,
                n == self.items@.len(),
                self.items@ == old(self).items@,
                self.max_population_size == old(self).max_population_size,
                self.selection_size == old(self).selection_size,
                picked@.len() <= k,
                candidates@.len() + picked@.len() == n,
                forall|a: int| 0 <= a < candidates@.len() ==> candidates@[a] < n,
                forall|a: int| 0 <= a < picked@.len() ==> picked@[a] < n,
                forall|a: int, b: int|
                    0 <= a < b < candidates@.len() ==> candidates@[a] != candidates@[b],
                forall|a: int, b: int| 0 <= a < b < picked@.len() ==> picked@[a] != picked@[b],
                forall|a: int, b: int|
                    0 <= a < picked@.len() && 0 <= b < candidates@.len() ==> picked@[a]
                        != candidates@[b],
            decreases k - picked.len(),
        {
            let mut weights: Vec<usize> = Vec::new();
            let mut j: usize = 0;
            while j < candidates.len()
                invariant
                    j <= candidates@.len(),
                    weights@.len() == j,
                    forall|a: int| 0 <= a < candidates@.len() ==> candidates@[a] < n,
                    forall|a: int| 0 <= a < j ==> weights@[a] == n - candidates@[a],
                    forall|a: int| 0 <= a < j ==> weights@[a] > 0,
                decreases candidates@.len() - j,
            {
                weights.push(n - candidates[j]);
                j = j + 1;
            }
            proof {
                assert(candidates@.len() > 0);
                assert(weights@[0] > 0);
            }
            let w = self.random.weighted(&weights);
            let chosen = candidates.remove(w);
            picked.push(chosen);
        }
        picked
    }

    /// The batch for the next generation: owned copies of the members that
    /// `select_indices` picked, distinct positions throughout.
    pub fn select(&mut self) -> (r: Vec<Solution>)
        requires
            old(self).wf(),
        ensures
            final(self).wf(),
            final(self).model() == old(self).model(),
            final(self).max_size() == old(self).max_size(),
            final(self).sel_size() == old(self).sel_size(),
            r@.len() == (if old(self).sel_size() <= old(self).model().len() {
                old(self).sel_size()
            } else {
                old(self).model().len() as int
            }),
            old(self).model().len() >= 1 ==> r@.len() >= 1,
            forall|i: int| 0 <= i < r@.len() ==> #[trigger] old(self).model().contains(r@[i]@),
            (exists|idx: Seq<int>|
                {
                    &&& #[trigger] idx.len() == r@.len()
                    &&& (forall|i: int|
                        0 <= i < idx.len() ==> 0 <= #[trigger] idx[i] < old(self).model().len()
                            && r@[i]@ == old(self).model()[idx[i]])
                    &&& (forall|i: int, j: int| 0 <= i < j < idx.len() ==> idx[i] != idx[j])
                }),
    {
        let picked = self.select_indices();
        let mut out: Vec<Solution> = Vec::new();
        let mut i: usize = 0;
        while i < picked.len()
            invariant
                i <= picked@.len(),
                out@.len() == i,
                self.wf(),
                self.model() == old(self).model(),
                self.max_size() == old(self).max_size(),
                self.sel_size() == old(self).sel_size(),
                picked@.len() == (if old(self).sel_size() <= old(self).model().len() {
                    old(self).sel_size()
                } else {
                    old(self).model().len() as int
                }),
                forall|a: int| 0 <= a < picked@.len() ==> picked@[a] < self.model().len(),
                forall|a: int| 0 <= a < i ==> out@[a]@ == self.model()[picked@[a] as int],
            decreases picked@.len() - i,
        {
            out.push(self.items[picked[i]].duplicate());
            i = i + 1;
        }
        proof {
            assert forall|a: int| 0 <= a < out@.len() implies old(self).model().contains(
                out@[a]@,
            ) by {
                let jj = picked@[a] as int;
                assert(0 <= jj < old(self).model().len() && out@[a]@ == old(self).model()[jj]);
            }
            let w = picked@.map_values(|p: usize| p as int);
            assert(w.len() == out@.len());
            assert forall|a: int|
                0 <= a < w.len() implies ({
                    let jj = #[trigger] w[a];
                    0 <= jj < old(self).model().len() && out@[a]@ == old(self).model()[jj]
                }) by {
                assert(w[a] == picked@[a] as int);
            }
            assert forall|a: int, b: int| 0 <= a < b < w.len() implies w[a] != w[b] by {
                assert(picked@[a] != picked@[b]);
            }
        }
        out
    }
}

} // verus!

//! Acceptance policy: decides whether a candidate solution replaces a
//! reference solution. The greedy variant accepts exactly the candidates
//! that are not worse; the random-probability decorator additionally
//! retains an occasional non-improving candidate to escape local optima.

use vstd::prelude::*;
use crate::random::{DefaultPureRandom, Probability, PureRandom};
use crate::solution::Solution;

verus! {

/// Parts per million of the default probability with which a non-improving
/// candidate is still accepted.
pub const DEFAULT_ACCEPTANCE_PARTS: u32 = 1000;

/// Accepts a candidate exactly when its cost is not worse than the
/// reference's.
#[derive(Clone, Copy, Debug, PartialEq, Eq, Structural)]
pub struct Greedy {}

impl Greedy {
    /// Builds the greedy policy.
    pub fn new() -> Self {
        Greedy {  }
    }

    /// Whether the candidate replaces the reference: exactly when it costs
    /// no more.
    pub fn is_accepted(&self, reference: &Solution, candidate: &Solution) -> (r: bool)
        ensures
            r == (candidate@.cost <= reference@.cost),
    {
        candidate.cost <= reference.cost
    }
}

/// Decorates the greedy policy: accepts whenever the decoratee accepts, or
/// when an independent probability test succeeds, so a non-improving
/// solution is occasionally retained.
pub struct RandomProbability {
    /// The decorated policy.
    pub other: Greedy,
    /// Probability of accepting a candidate the decoratee refuses.
    pub probability: Probability,
}

impl RandomProbability {
    /// Builds the decorator around an existing policy.
    pub fn new(other: Greedy, probability: Probability) -> (r: Self)
        ensures
            r.probability == probability,
    {
        RandomProbability { other, probability }
    }

    /// Whether the candidate replaces the reference. A candidate that costs
    /// no more is always accepted; a worse one only on the probability
    /// test, so with an impossible probability the policy is exactly
    /// greedy, and with a sure one everything is accepted. Draws come from
    /// the stream handed in — the candidate's own — never a shared one.
    pub fn is_accepted(
        &self,
        reference: &Solution,
        candidate: &Solution,
        random: &mut DefaultPureRandom,
    ) -> (r: bool)
        requires
            self.probability.wf(),
        ensures
            candidate@.cost <= reference@.cost ==> r,
            !r ==> candidate@.cost > reference@.cost,
            self.probability.is_never() ==> r == (candidate@.cost <= reference@.cost),
            self.probability.is_always() ==> r,
    {
        if self.other.is_accepted(reference, candidate) {
            true
        } else {
            random.is_hit(self.probability)
        }
    }
}

impl Default for RandomProbability {
    /// The default decorator: greedy, with the default escape probability.
    fn default() -> (r: Self)
        ensures
            r.probability.wf(),
            r.probability.parts == DEFAULT_ACCEPTANCE_PARTS,
    {
        RandomProbability::new(Greedy::new(), Probability::new(DEFAULT_ACCEPTANCE_PARTS))
    }
}

} // verus!

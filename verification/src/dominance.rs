//! Dominance ordering for multi-objective comparison: pairwise relations
//! over objective vectors, and a cached per-solution rank used by adaptive
//! population variants.

use vstd::prelude::*;
use vstd::set_lib::lemma_len_subset;

verus! {

/// Cached comparison key of one solution: its non-dominated front and its
/// position within the compared batch.
#[derive(Clone, Copy, Debug, PartialEq, Eq, Structural)]
pub struct DominanceOrder {
    /// Front the solution fell into: zero means dominated by no other.
    pub front_index: usize,
    /// The solution's position in the batch the fronts were computed over.
    pub seq_index: usize,
}

/// Outcome of comparing two objective vectors dimension by dimension.
#[derive(Clone, Copy, Debug, PartialEq, Eq, Structural)]
pub enum DominanceRelation {
    /// Better or equal everywhere and strictly better somewhere.
    Less,
    /// Worse or equal everywhere and strictly worse somewhere.
    Greater,
    /// Equal in every dimension.
    Equal,
    /// Strictly better somewhere and strictly worse somewhere else.
    Incomparable,
}

/// `a` dominates `b`: no dimension worse, at least one strictly better
/// (smaller objective values are better).
pub open spec fn dominates(a: Seq<u64>, b: Seq<u64>) -> bool {
    &&& a.len() == b.len()
    &&& forall|i: int| 0 <= i < a.len() ==> a[i] <= b[i]
    &&& exists|i: int| 0 <= i < a.len() && a[i] < b[i]
}

/// Compares two objective vectors of one problem, dimension by dimension.
pub fn compare(a: &Vec<u64>, b: &Vec<u64>) -> (r: DominanceRelation)
    requires
        a@.len() == b@.len(),
    ensures
        r == DominanceRelation::Less <==> dominates(a@, b@),
        r == DominanceRelation::Greater <==> dominates(b@, a@),
        r == DominanceRelation::Equal <==> a@ == b@,
        r == DominanceRelation::Incomparable <==> (!dominates(a@, b@) && !dominates(b@, a@) && a@
            != b@),
{
    let mut some_less = false;
    let mut some_greater = false;
    let mut i: usize = 0;
    while i < a.len()
        invariant
            a@.len() == b@.len(),
            i <= a@.len(),
            some_less == exists|j: int| 0 <= j < i && a@[j] < b@[j],
            some_greater == exists|j: int| 0 <= j < i && a@[j] > b@[j],
        decreases a@.len() - i,
    {
        if a[i] < b[i] {
            some_less = true;
        }
        if a[i] > b[i] {
            some_greater = true;
        }
        i = i + 1;
    }
    if some_less && some_greater {
        DominanceRelation::Incomparable
    } else if some_less {
        DominanceRelation::Less
    } else if some_greater {
        DominanceRelation::Greater
    } else {
        proof {
            assert(a@ =~= b@);
        }
        DominanceRelation::Equal
    }
}

/// Whether the first objective vector dominates the second; vectors of
/// different problems (different lengths) never dominate one another.
pub fn dominates_check(a: &Vec<u64>, b: &Vec<u64>) -> (r: bool)
    ensures
        r == dominates(a@, b@),
{
    if a.len() != b.len() {
        return false;
    }
    let mut some_less = false;
    let mut i: usize = 0;
    while i < a.len()
        invariant
            a@.len() == b@.len(),
            i <= a@.len(),
            forall|j: int| 0 <= j < i ==> a@[j] <= b@[j],
            some_less == exists|j: int| 0 <= j < i && a@[j] < b@[j],
        decreases a@.len() - i,
    {
        if a[i] > b[i] {
            return false;
        }
        if a[i] < b[i] {
            some_less = true;
        }
        i = i + 1;
    }
    some_less
}

/// Dominance never relates a vector to itself.
pub proof fn lemma_dominates_irreflexive(a: Seq<u64>)
    ensures
        !dominates(a, a),
{
}

/// Dominance carries through a middle vector.
pub proof fn lemma_dominates_transitive(a: Seq<u64>, b: Seq<u64>, c: Seq<u64>)
    requires
        dominates(a, b),
        dominates(b, c),
    ensures
        dominates(a, c),
{
    let i = choose|i: int| 0 <= i < a.len() && a[i] < b[i];
    assert(a[i] < c[i]);
}

/// Any finite, non-empty batch of objective vectors has a member dominated
/// by no other: dominance is a strict partial order, so peeling fronts off
/// always makes progress.
proof fn lemma_exists_minimal(objs: Seq<Seq<u64>>, s: Set<int>)
    requires
        s.finite(),
        s.len() >= 1,
        forall|i: int| s.contains(i) ==> 0 <= i < objs.len(),
    ensures
        exists|i: int|
            s.contains(i) && (forall|j: int| s.contains(j) ==> !dominates(objs[j], #[trigger] objs[i])),
    decreases s.len(),
{
    let i0 = s.choose();
    assert(s.contains(i0)) by {
        if s.len() >= 1 {
            assert(!s.is_empty());
        }
    }
    if exists|j: int| s.contains(j) && dominates(objs[j], objs[i0]) {
        let d = Set::new(|j: int| s.contains(j) && dominates(objs[j], objs[i0]));
        let j0 = choose|j: int| s.contains(j) && dominates(objs[j], objs[i0]);
        assert(d.contains(j0));
        assert(d.subset_of(s));
        lemma_len_subset(d, s);
        lemma_dominates_irreflexive(objs[i0]);
        assert(!d.contains(i0));
        assert(d.subset_of(s.remove(i0)));
        lemma_len_subset(d, s.remove(i0));
        assert(d.len() < s.len());
        assert(d.len() >= 1) by {
            if d.len() == 0 {
                assert(d.is_empty());
            }
        }
        lemma_exists_minimal(objs, d);
        let m = choose|m: int|
            d.contains(m) && (forall|j: int| d.contains(j) ==> !dominates(objs[j], #[trigger] objs[m]));
        assert forall|j: int| s.contains(j) implies !dominates(objs[j], #[trigger] objs[m]) by {
            if dominates(objs[j], objs[m]) {
                lemma_dominates_transitive(objs[j], objs[m], objs[i0]);
                assert(d.contains(j));
            }
        }
        assert(s.contains(m));
    } else {
        assert(s.contains(i0) && forall|j: int|
            s.contains(j) ==> !dominates(objs[j], #[trigger] objs[i0]));
    }
}

/// The objective vectors of a batch, as mathematical sequences.
pub open spec fn objs_of(objectives: Seq<Vec<u64>>) -> Seq<Seq<u64>> {
    objectives.map_values(|v: Vec<u64>| v@)
}

/// A batch member dominated by no other member.
pub open spec fn is_non_dominated(objs: Seq<Seq<u64>>, i: int) -> bool {
    forall|j: int| 0 <= j < objs.len() ==> !dominates(#[trigger] objs[j], objs[i])
}

/// Batch members not yet assigned to a front.
spec fn count_unassigned(assigned: Seq<bool>) -> int
    decreases assigned.len(),
{
    if assigned.len() == 0 {
        0
    } else {
        count_unassigned(assigned.drop_last()) + if assigned.last() {
            0int
        } else {
            1int
        }
    }
}

/// Assigning one member lowers the unassigned count by one.
proof fn lemma_count_unassigned_update(assigned: Seq<bool>, c: int)
    requires
        0 <= c < assigned.len(),
        !assigned[c],
    ensures
        count_unassigned(assigned.update(c, true)) == count_unassigned(assigned) - 1,
    decreases assigned.len(),
{
    if c == assigned.len() - 1 {
        assert(assigned.update(c, true).drop_last() =~= assigned.drop_last());
    } else {
        assert(assigned.update(c, true).drop_last() =~= assigned.drop_last().update(c, true));
        lemma_count_unassigned_update(assigned.drop_last(), c);
    }
}

/// With nothing assigned, every member counts.
proof fn lemma_count_unassigned_full(assigned: Seq<bool>)
    requires
        forall|i: int| 0 <= i < assigned.len() ==> !assigned[i],
    ensures
        count_unassigned(assigned) == assigned.len(),
    decreases assigned.len(),
{
    if assigned.len() > 0 {
        lemma_count_unassigned_full(assigned.drop_last());
    }
}

/// The unassigned members form a finite set as large as their count.
proof fn lemma_unassigned_set(assigned: Seq<bool>)
    ensures
        ({
            let s = Set::new(|i: int| 0 <= i < assigned.len() && !assigned[i]);
            s.finite() && s.len() == count_unassigned(assigned)
        }),
    decreases assigned.len(),
{
    let s = Set::new(|i: int| 0 <= i < assigned.len() && !assigned[i]);
    if assigned.len() == 0 {
        assert(s =~= Set::<int>::empty());
    } else {
        lemma_unassigned_set(assigned.drop_last());
        let sd = Set::new(
            |i: int| 0 <= i < assigned.drop_last().len() && !assigned.drop_last()[i],
        );
        if assigned.last() {
            assert(s =~= sd);
        } else {
            assert(!sd.contains(assigned.len() - 1));
            assert(s =~= sd.insert(assigned.len() - 1));
        }
    }
}

/// Whether the given member is dominated by no member still unassigned.
fn is_minimal_unassigned(objectives: &Vec<Vec<u64>>, assigned: &Vec<bool>, t: usize) -> (r: bool)
    requires
        assigned@.len() == objectives@.len(),
        t < objectives@.len(),
    ensures
        r == (forall|j: int|
            0 <= j < objectives@.len() && !assigned@[j] ==> !dominates(
                #[trigger] objs_of(objectives@)[j],
                objs_of(objectives@)[t as int],
            )),
{
    let mut j: usize = 0;
    while j < objectives.len()
        invariant
            assigned@.len() == objectives@.len(),
            t < objectives@.len(),
            j <= objectives@.len(),
            forall|q: int|
                0 <= q < j && !assigned@[q] ==> !dominates(
                    #[trigger] objs_of(objectives@)[q],
                    objs_of(objectives@)[t as int],
                ),
        decreases objectives@.len() - j,
    {
        if !assigned[j] {
            if dominates_check(&objectives[j], &objectives[t]) {
                proof {
                    assert(dominates(objs_of(objectives@)[j as int], objs_of(objectives@)[t as int]));
                }
                return false;
            }
        }
        j = j + 1;
    }
    true
}

/// The unassigned count is never negative.
proof fn lemma_count_unassigned_nonneg(assigned: Seq<bool>)
    ensures
        0 <= count_unassigned(assigned) <= assigned.len(),
    decreases assigned.len(),
{
    if assigned.len() > 0 {
        lemma_count_unassigned_nonneg(assigned.drop_last());
    }
}

/// Assigns the given rank to every member of the current front, which is
/// never empty, so the unassigned count strictly falls.
fn assign_front(
    ranks: &mut Vec<usize>,
    assigned: &mut Vec<bool>,
    in_front: &Vec<bool>,
    round: usize,
    remaining: usize,
) -> (rem: usize)
    requires
        old(ranks)@.len() == old(assigned)@.len(),
        in_front@.len() == old(assigned)@.len(),
        remaining == count_unassigned(old(assigned)@),
        forall|q: int| 0 <= q < in_front@.len() && #[trigger] in_front@[q] ==> !old(assigned)@[q],
        exists|q: int| 0 <= q < in_front@.len() && #[trigger] in_front@[q],
    ensures
        final(ranks)@.len() == old(ranks)@.len(),
        final(assigned)@.len() == old(assigned)@.len(),
        forall|q: int|
            0 <= q < final(assigned)@.len() ==> #[trigger] final(assigned)@[q] == (old(
                assigned,
            )@[q] || in_front@[q]),
        forall|q: int|
            0 <= q < final(ranks)@.len() ==> #[trigger] final(ranks)@[q] == (if in_front@[q] {
                round as int
            } else {
                old(ranks)@[q] as int
            }),
        rem == count_unassigned(final(assigned)@),
        rem < remaining,
{
    let n = assigned.len();
    let mut rem = remaining;
    let mut any: bool = false;
    let mut t: usize = 0;
    while t < n
        invariant
            n == assigned@.len(),
            ranks@.len() == n,
            in_front@.len() == n,
            t <= n,
            rem == count_unassigned(assigned@),
            rem <= remaining,
            any ==> rem < remaining,
            any == exists|q: int| 0 <= q < t && #[trigger] in_front@[q],
            forall|q: int| 0 <= q < n && #[trigger] in_front@[q] ==> !old(assigned)@[q],
            forall|q: int|
                0 <= q < n ==> #[trigger] assigned@[q] == (old(assigned)@[q] || (q < t
                    && in_front@[q])),
            forall|q: int|
                0 <= q < n ==> #[trigger] ranks@[q] == (if q < t && in_front@[q] {
                    round as int
                } else {
                    old(ranks)@[q] as int
                }),
        decreases n - t,
    {
        if in_front[t] {
            let ghost assigned_before = assigned@;
            let ghost ranks_before = ranks@;
            let _ = ranks.remove(t);
            ranks.insert(t, round);
            let _ = assigned.remove(t);
            assigned.insert(t, true);
            proof {
                assert(ranks@ =~= ranks_before.update(t as int, round));
                assert(assigned@ =~= assigned_before.update(t as int, true));
                lemma_count_unassigned_update(assigned_before, t as int);
                lemma_count_unassigned_nonneg(assigned@);
            }
            rem = rem - 1;
            any = true;
        }
        t = t + 1;
    }
    rem
}

/// A completeness argument for the collected front: with members still
/// unassigned, the front holds at least one of them.
proof fn lemma_front_nonempty(objs: Seq<Seq<u64>>, assigned: Seq<bool>, in_front: Seq<bool>)
    requires
        assigned.len() == objs.len(),
        in_front.len() == assigned.len(),
        count_unassigned(assigned) >= 1,
        forall|q: int|
            0 <= q < assigned.len() && !assigned[q] && (forall|j: int|
                0 <= j < objs.len() && !assigned[j] ==> !dominates(#[trigger] objs[j], objs[q]))
                ==> #[trigger] in_front[q],
    ensures
        exists|q: int| 0 <= q < in_front.len() && #[trigger] in_front[q],
{
    lemma_unassigned_set(assigned);
    let s = Set::new(|q: int| 0 <= q < assigned.len() && !assigned[q]);
    lemma_exists_minimal(objs, s);
    let m = choose|q: int|
        s.contains(q) && (forall|j: int| s.contains(j) ==> !dominates(objs[j], #[trigger] objs[q]));
    assert(s.contains(m));
    assert forall|j: int|
        0 <= j < objs.len() && !assigned[j] implies !dominates(#[trigger] objs[j], objs[m]) by {
        assert(s.contains(j));
    }
    assert(in_front[m]);
}

/// One peeling round keeps the front ordering invariants: assigned ranks
/// stay below the next round, dominators stand in strictly earlier fronts,
/// only dominated members get a positive rank, and every member left
/// unassigned is dominated by someone.
proof fn lemma_round_invariants(
    objs: Seq<Seq<u64>>,
    assigned0: Seq<bool>,
    ranks0: Seq<usize>,
    assigned: Seq<bool>,
    ranks: Seq<usize>,
    in_front: Seq<bool>,
    round: usize,
)
    requires
        assigned0.len() == objs.len(),
        ranks0.len() == objs.len(),
        assigned.len() == objs.len(),
        ranks.len() == objs.len(),
        in_front.len() == objs.len(),
        forall|q: int|
            0 <= q < objs.len() && #[trigger] in_front[q] ==> !assigned0[q] && (forall|j: int|
                0 <= j < objs.len() && !assigned0[j] ==> !dominates(#[trigger] objs[j], objs[q])),
        forall|q: int|
            0 <= q < objs.len() && !assigned0[q] && (forall|j: int|
                0 <= j < objs.len() && !assigned0[j] ==> !dominates(#[trigger] objs[j], objs[q]))
                ==> #[trigger] in_front[q],
        forall|q: int|
            0 <= q < objs.len() ==> #[trigger] assigned[q] == (assigned0[q] || in_front[q]),
        forall|q: int|
            0 <= q < objs.len() ==> #[trigger] ranks[q] == (if in_front[q] {
                round as int
            } else {
                ranks0[q] as int
            }),
        forall|t: int| 0 <= t < objs.len() && assigned0[t] ==> #[trigger] ranks0[t] < round,
        forall|t: int, j: int|
            0 <= t < objs.len() && 0 <= j < objs.len() && assigned0[t] && dominates(
                objs[j],
                objs[t],
            ) ==> assigned0[j] && ranks0[j] < ranks0[t],
        forall|t: int|
            0 <= t < objs.len() && assigned0[t] && #[trigger] ranks0[t] >= 1 ==> !is_non_dominated(
                objs,
                t,
            ),
        round >= 1 ==> forall|t: int|
            0 <= t < objs.len() && !assigned0[t] ==> !is_non_dominated(objs, t),
    ensures
        forall|t: int| 0 <= t < objs.len() && assigned[t] ==> #[trigger] ranks[t] < round + 1,
        forall|t: int, j: int|
            0 <= t < objs.len() && 0 <= j < objs.len() && assigned[t] && dominates(
                objs[j],
                objs[t],
            ) ==> assigned[j] && ranks[j] < ranks[t],
        forall|t: int|
            0 <= t < objs.len() && assigned[t] && #[trigger] ranks[t] >= 1 ==> !is_non_dominated(
                objs,
                t,
            ),
        forall|t: int| 0 <= t < objs.len() && !assigned[t] ==> !is_non_dominated(objs, t),
{
    let n = objs.len() as int;
    assert forall|t: int, j: int|
        0 <= t < n && 0 <= j < n && assigned[t] && dominates(objs[j], objs[t]) implies assigned[j]
        && ranks[j] < ranks[t] by {
        if !assigned0[t] {
            // Newly assigned: a dominator cannot still be unassigned, or
            // the member would not have been minimal.
            assert(in_front[t]);
            assert(assigned0[j]);
        }
    }
    assert forall|t: int|
        0 <= t < n && assigned[t] && #[trigger] ranks[t] >= 1 implies !is_non_dominated(
        objs,
        t,
    ) by {
        if !assigned0[t] {
            assert(in_front[t]);
            assert(round >= 1);
        }
    }
    assert forall|t: int| 0 <= t < n && !assigned[t] implies !is_non_dominated(objs, t) by {
        assert(!assigned0[t] && !in_front[t]);
        let j = choose|j: int|
            0 <= j < n && !assigned0[j] && dominates(#[trigger] objs[j], objs[t]);
        assert(dominates(objs[j], objs[t]));
    }
}

/// Partitions a batch of objective vectors into ordered fronts, returning
/// each member's front index: front zero holds exactly the members
/// dominated by no other, and every dominated member stands in a strictly
/// later front than each of its dominators.
#[verifier::rlimit(100)]
pub fn compute_fronts(objectives: &Vec<Vec<u64>>) -> (ranks: Vec<usize>)
    ensures
        ranks@.len() == objectives@.len(),
        forall|i: int|
            0 <= i < ranks@.len() ==> ((#[trigger] ranks@[i] == 0) <==> is_non_dominated(
                objs_of(objectives@),
                i,
            )),
        forall|i: int, j: int|
            0 <= i < ranks@.len() && 0 <= j < ranks@.len() && dominates(
                objs_of(objectives@)[j],
                objs_of(objectives@)[i],
            ) ==> ranks@[j] < ranks@[i],
{
    let ghost objs = objs_of(objectives@);
    let n = objectives.len();
    let mut ranks: Vec<usize> = Vec::new();
    let mut assigned: Vec<bool> = Vec::new();
    let mut i: usize = 0;
    while i < n
        invariant
            i <= n,
            ranks@.len() == i,
            assigned@.len() == i,
            forall|t: int| 0 <= t < i ==> !assigned@[t],
            forall|t: int| 0 <= t < i ==> ranks@[t] == 0,
        decreases n - i,
    {
        ranks.push(0);
        assigned.push(false);
        i = i + 1;
    }
    let mut remaining: usize = n;
    proof {
        lemma_count_unassigned_full(assigned@);
    }
    let mut round: usize = 0;
    while remaining > 0
        invariant
            objs == objs_of(objectives@),
            n == objectives@.len(),
            ranks@.len() == n,
            assigned@.len() == n,
            remaining == count_unassigned(assigned@),
            round + remaining <= n,
            forall|t: int| 0 <= t < n && assigned@[t] ==> #[trigger] ranks@[t] < round,
            forall|t: int, j: int|
                0 <= t < n && 0 <= j < n && assigned@[t] && dominates(objs[j], objs[t])
                    ==> assigned@[j] && ranks@[j] < ranks@[t],
            forall|t: int|
                0 <= t < n && assigned@[t] && #[trigger] ranks@[t] >= 1 ==> !is_non_dominated(
                    objs,
                    t,
                ),
            round >= 1 ==> forall|t: int|
                0 <= t < n && !assigned@[t] ==> !is_non_dominated(objs, t),
        decreases remaining,
    {
        let ghost assigned0 = assigned@;
        let ghost ranks0 = ranks@;
        let ghost remaining0 = remaining as int;
        // First pass: mark the members of the current front — unassigned
        // and dominated by no unassigned member.
        let mut in_front: Vec<bool> = Vec::new();
        let mut t: usize = 0;
        while t < n
            invariant
                objs == objs_of(objectives@),
                n == objectives@.len(),
                assigned@.len() == n,
                assigned@ == assigned0,
                t <= n,
                in_front@.len() == t,
                forall|q: int|
                    0 <= q < t && #[trigger] in_front@[q] ==> !assigned@[q] && (forall|j: int|
                        0 <= j < n && !assigned@[j] ==> !dominates(#[trigger] objs[j], objs[q])),
                forall|q: int|
                    0 <= q < t && !assigned@[q] && (forall|j: int|
                        0 <= j < n && !assigned@[j] ==> !dominates(#[trigger] objs[j], objs[q]))
                        ==> in_front@[q],
            decreases n - t,
        {
            if !assigned[t] && is_minimal_unassigned(objectives, &assigned, t) {
                in_front.push(true);
            } else {
                in_front.push(false);
            }
            t = t + 1;
        }
        // The front is never empty: dominance is a strict partial order, so
        // the unassigned members have a minimal one.
        proof {
            lemma_front_nonempty(objs, assigned@, in_front@);
        }
        // Second pass: assign the front its rank.
        remaining = assign_front(&mut ranks, &mut assigned, &in_front, round, remaining);
        proof {
            lemma_round_invariants(objs, assigned0, ranks0, assigned@, ranks@, in_front@, round);
        }
        round = round + 1;
    }
    proof {
        assert forall|i: int| 0 <= i < ranks@.len() implies ((#[trigger] ranks@[i] == 0)
            <==> is_non_dominated(objs, i)) by {
            assert(count_unassigned(assigned@) == 0);
            assert(assigned@[i]) by {
                lemma_unassigned_set(assigned@);
                let s = Set::new(|q: int| 0 <= q < assigned@.len() && !assigned@[q]);
                if !assigned@[i] {
                    assert(s.contains(i));
                    assert(s.len() >= 1) by {
                        if s.len() == 0 {
                            assert(s.is_empty());
                        }
                    }
                }
            }
            if ranks@[i] == 0 {
                assert forall|j: int| 0 <= j < objs.len() implies !dominates(
                    #[trigger] objs[j],
                    objs[i],
                ) by {
                    if dominates(objs[j], objs[i]) {
                        assert(ranks@[j] < ranks@[i]);
                    }
                }
            }
        }
        assert forall|i: int, j: int|
            0 <= i < ranks@.len() && 0 <= j < ranks@.len() && dominates(
                objs_of(objectives@)[j],
                objs_of(objectives@)[i],
            ) implies ranks@[j] < ranks@[i] by {
            assert(assigned@[i]) by {
                lemma_unassigned_set(assigned@);
                let s = Set::new(|q: int| 0 <= q < assigned@.len() && !assigned@[q]);
                if !assigned@[i] {
                    assert(s.contains(i));
                    assert(s.len() >= 1) by {
                        if s.len() == 0 {
                            assert(s.is_empty());
                        }
                    }
                }
            }
        }
    }
    ranks
}

} // verus!

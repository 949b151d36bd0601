//! The ranking order of the table: wins descending, then the exact
//! (unrounded) average descending, then team index ascending as the
//! deterministic tie-break. Averages are compared as exact rationals by
//! cross-multiplication, so no rounding enters the order.

use vstd::prelude::*;
use vstd::multiset::Multiset;
use vstd::relations::{sorted_by, total_ordering};
use vstd::seq_lib::lemma_sorted_unique;
use vstd::arithmetic::mul::lemma_mul_upper_bound;

use crate::record::Record;
use crate::standings::Standings;
use crate::team::{team_at, team_of_index, Team, TEAM_COUNT};

verus! {

/// Numerator of a record's exact average (total centipoints).
pub open spec fn avg_num(r: Record) -> int {
    r.total_points as int
}

/// Denominator of a record's exact average. A record with no games has a
/// zero total, so denominator one gives it the exact average zero.
pub open spec fn avg_den(r: Record) -> int {
    if r.games_played == 0 {
        1
    } else {
        r.games_played as int
    }
}

/// `a`'s exact average is strictly greater than `b`'s.
pub open spec fn avg_gt(a: Record, b: Record) -> bool {
    avg_num(a) * avg_den(b) > avg_num(b) * avg_den(a)
}

/// `a`'s exact average equals `b`'s.
pub open spec fn avg_eq(a: Record, b: Record) -> bool {
    avg_num(a) * avg_den(b) == avg_num(b) * avg_den(a)
}

/// The team at standings index `i` ranks strictly before the one at `j`:
/// more wins, or equal wins and a strictly greater exact average, or a full
/// tie broken by the lower index.
pub open spec fn ranks_before(v: Seq<Record>, i: int, j: int) -> bool {
    let a = v[i];
    let b = v[j];
    ||| a.wins > b.wins
    ||| (a.wins == b.wins && avg_gt(a, b))
    ||| (a.wins == b.wins && avg_eq(a, b) && i < j)
}

/// The ranking order as a reflexive relation on standings indices.
pub open spec fn rank_leq(v: Seq<Record>) -> spec_fn(usize, usize) -> bool {
    |i: usize, j: usize| i == j || ranks_before(v, i as int, j as int)
}

proof fn lemma_frac_gt_ge_trans(n1: int, d1: int, n2: int, d2: int, n3: int, d3: int)
    by (nonlinear_arith)
    requires
        d1 >= 1,
        d2 >= 1,
        d3 >= 1,
        n1 * d2 > n2 * d1,
        n2 * d3 >= n3 * d2,
    ensures
        n1 * d3 > n3 * d1,
{
}

proof fn lemma_frac_ge_gt_trans(n1: int, d1: int, n2: int, d2: int, n3: int, d3: int)
    by (nonlinear_arith)
    requires
        d1 >= 1,
        d2 >= 1,
        d3 >= 1,
        n1 * d2 >= n2 * d1,
        n2 * d3 > n3 * d2,
    ensures
        n1 * d3 > n3 * d1,
{
}

proof fn lemma_frac_eq_trans(n1: int, d1: int, n2: int, d2: int, n3: int, d3: int)
    by (nonlinear_arith)
    requires
        d1 >= 1,
        d2 >= 1,
        d3 >= 1,
        n1 * d2 == n2 * d1,
        n2 * d3 == n3 * d2,
    ensures
        n1 * d3 == n3 * d1,
{
}

/// The ranking relation is a total order on standings indices, so the
/// ranked table is uniquely determined by the standings.
pub proof fn lemma_rank_total_ordering(v: Seq<Record>)
    ensures
        total_ordering(rank_leq(v)),
{
    let leq = rank_leq(v);
    assert forall|a: usize| #[trigger] leq(a, a) by {}
    assert forall|a: usize, b: usize| #[trigger] leq(a, b) && #[trigger] leq(b, a) implies a
        == b by {}
    assert forall|a: usize, b: usize| #[trigger] leq(a, b) || #[trigger] leq(b, a) by {}
    assert forall|a: usize, b: usize, c: usize| #[trigger] leq(a, b) && #[trigger] leq(
        b,
        c,
    ) implies leq(a, c) by {
        if a != b && b != c && a != c {
            let ra = v[a as int];
            let rb = v[b as int];
            let rc = v[c as int];
            if ra.wins == rb.wins && rb.wins == rc.wins {
                if avg_gt(ra, rb) && avg_gt(rb, rc) {
                    lemma_frac_gt_ge_trans(
                        avg_num(ra),
                        avg_den(ra),
                        avg_num(rb),
                        avg_den(rb),
                        avg_num(rc),
                        avg_den(rc),
                    );
                } else if avg_gt(ra, rb) && avg_eq(rb, rc) {
                    lemma_frac_gt_ge_trans(
                        avg_num(ra),
                        avg_den(ra),
                        avg_num(rb),
                        avg_den(rb),
                        avg_num(rc),
                        avg_den(rc),
                    );
                } else if avg_eq(ra, rb) && avg_gt(rb, rc) {
                    lemma_frac_ge_gt_trans(
                        avg_num(ra),
                        avg_den(ra),
                        avg_num(rb),
                        avg_den(rb),
                        avg_num(rc),
                        avg_den(rc),
                    );
                } else if avg_eq(ra, rb) && avg_eq(rb, rc) {
                    lemma_frac_eq_trans(
                        avg_num(ra),
                        avg_den(ra),
                        avg_num(rb),
                        avg_den(rb),
                        avg_num(rc),
                        avg_den(rc),
                    );
                }
            }
        }
    }
}

/// The unique ranking of the standings: the team indices `0 .. TEAM_COUNT`
/// sorted by the ranking order.
pub open spec fn rank_order(v: Seq<Record>) -> Seq<usize> {
    Seq::new(TEAM_COUNT as nat, |i: int| i as usize).sort_by(rank_leq(v))
}

/// The pairwise sort-order guarantee of the rendered table: a team listed
/// above another has strictly more wins, or equal wins and an exact average
/// at least as great.
pub open spec fn ranked_pair_ok(v: Seq<Record>, ta: Team, tb: Team) -> bool {
    let a = v[ta.index_spec()];
    let b = v[tb.index_spec()];
    ||| a.wins > b.wins
    ||| (a.wins == b.wins && avg_num(a) * avg_den(b) >= avg_num(b) * avg_den(a))
}

impl Standings {
    /// Does the team at index `i` rank strictly before the one at `j`?
    fn beats(&self, i: usize, j: usize) -> (b: bool)
        requires
            i < self@.len(),
            j < self@.len(),
        ensures
            b == ranks_before(self@, i as int, j as int),
    {
        let ri = *self.record_at(i);
        let rj = *self.record_at(j);
        if ri.wins != rj.wins {
            ri.wins > rj.wins
        } else {
            let ni = ri.total_points as u128;
            let di: u128 = if ri.games_played == 0 {
                1
            } else {
                ri.games_played as u128
            };
            let nj = rj.total_points as u128;
            let dj: u128 = if rj.games_played == 0 {
                1
            } else {
                rj.games_played as u128
            };
            proof {
                lemma_mul_upper_bound(ni as int, u64::MAX as int, dj as int, u32::MAX as int);
                lemma_mul_upper_bound(nj as int, u64::MAX as int, di as int, u32::MAX as int);
            }
            let xi = ni * dj;
            let xj = nj * di;
            if xi != xj {
                xi > xj
            } else {
                i < j
            }
        }
    }

    /// The teams in table order: wins descending, exact average descending,
    /// team index ascending. The result is exactly `rank_order(self@)`, and
    /// any team listed above another satisfies the pairwise sort guarantee.
    pub fn ranking(&self) -> (r: Vec<Team>)
        requires
            self.wf(),
        ensures
            r@.len() == TEAM_COUNT,
            forall|k: int|
                0 <= k < TEAM_COUNT ==> (#[trigger] r@[k]) == team_at(
                    rank_order(self@)[k] as int,
                ),
            forall|a: int, b: int|
                0 <= a < b < r@.len() ==> #[trigger] ranked_pair_ok(self@, r@[a], r@[b]),
    {
        broadcast use vstd::seq_lib::group_to_multiset_ensures;
        broadcast use vstd::multiset::group_multiset_axioms;

        let ghost leq = rank_leq(self@);
        let ghost ident = Seq::new(TEAM_COUNT as nat, |i: int| i as usize);
        proof {
            lemma_rank_total_ordering(self@);
        }

        let mut rem: Vec<usize> = Vec::new();
        let mut i: usize = 0;
        while i < TEAM_COUNT
            invariant
                i <= TEAM_COUNT,
                rem@.len() == i,
                forall|k: int| 0 <= k < i ==> rem@[k] == k as usize,
            decreases TEAM_COUNT - i,
        {
            rem.push(i);
            i = i + 1;
        }
        proof {
            assert(rem@ =~= ident);
        }

        let mut out: Vec<usize> = Vec::new();
        while rem.len() > 0
            invariant
                self.wf(),
                leq == rank_leq(self@),
                total_ordering(leq),
                ident == Seq::new(TEAM_COUNT as nat, |i: int| i as usize),
                out@.len() + rem@.len() == TEAM_COUNT,
                sorted_by(out@, leq),
                out@.to_multiset().add(rem@.to_multiset()) =~= ident.to_multiset(),
                forall|x: int, y: int|
                    0 <= x < out@.len() && 0 <= y < rem@.len() ==> leq(
                        #[trigger] out@[x],
                        #[trigger] rem@[y],
                    ),
                forall|k: int| 0 <= k < out@.len() ==> (#[trigger] out@[k]) < TEAM_COUNT,
                forall|k: int| 0 <= k < rem@.len() ==> (#[trigger] rem@[k]) < TEAM_COUNT,
            decreases rem@.len(),
        {
            let mut best: usize = 0;
            let mut m: usize = 1;
            while m < rem.len()
                invariant
                    self.wf(),
                    leq == rank_leq(self@),
                    total_ordering(leq),
                    rem@.len() > 0,
                    best < rem@.len(),
                    m <= rem@.len(),
                    forall|y: int| 0 <= y < m ==> leq(rem@[best as int], #[trigger] rem@[y]),
                    forall|k: int| 0 <= k < rem@.len() ==> (#[trigger] rem@[k]) < TEAM_COUNT,
                decreases rem@.len() - m,
            {
                if self.beats(rem[m], rem[best]) {
                    proof {
                        assert(leq(rem@[m as int], rem@[best as int]));
                        assert forall|y: int| 0 <= y < m + 1 implies leq(
                            rem@[m as int],
                            #[trigger] rem@[y],
                        ) by {
                            if y < m {
                                assert(leq(rem@[best as int], rem@[y]));
                            }
                        }
                    }
                    best = m;
                } else {
                    proof {
                        assert(!ranks_before(
                            self@,
                            rem@[m as int] as int,
                            rem@[best as int] as int,
                        ));
                        assert(leq(rem@[best as int], rem@[m as int]) || leq(
                            rem@[m as int],
                            rem@[best as int],
                        ));
                        assert(leq(rem@[best as int], rem@[m as int]));
                    }
                }
                m = m + 1;
            }
            let ghost old_out = out@;
            let ghost old_rem = rem@;
            let b = rem.remove(best);
            out.push(b);
            proof {
                assert(old_rem[best as int] == b);
                assert(old_rem.contains(b));
                vstd::seq_lib::to_multiset_contains(old_rem, b);
                assert(old_rem.to_multiset().count(b) > 0);
                vstd::seq_lib::to_multiset_build(old_out, b);
                assert(old_out.push(b).to_multiset() =~= old_out.to_multiset().insert(b));
                assert(out@ == old_out.push(b));
                vstd::seq_lib::to_multiset_remove(old_rem, best as int);
                assert(old_rem.remove(best as int).to_multiset() =~= old_rem.to_multiset().remove(
                    b,
                ));
                assert(rem@ == old_rem.remove(best as int));
                assert(out@.to_multiset().add(rem@.to_multiset()) =~= ident.to_multiset());
                assert forall|x: int, y: int|
                    0 <= x < out@.len() && 0 <= y < rem@.len() implies leq(
                    #[trigger] out@[x],
                    #[trigger] rem@[y],
                ) by {
                    let ghost yo: int = if y < best { y } else { y + 1 };
                    assert(rem@[y] == old_rem[yo]);
                    if x < old_out.len() {
                        assert(out@[x] == old_out[x]);
                    } else {
                        assert(out@[x] == b);
                        assert(leq(old_rem[best as int], old_rem[yo]));
                    }
                }
                assert forall|p: int, q: int| 0 <= p < q < out@.len() implies #[trigger] leq(
                    out@[p],
                    out@[q],
                ) by {
                    if q == out@.len() - 1 {
                        assert(out@[q] == b);
                        assert(old_rem.contains(b)) by {
                            assert(old_rem[best as int] == b);
                        }
                        assert(leq(old_out[p], old_rem[best as int]));
                    }
                }
            }
        }
        proof {
            assert(rem@ =~= Seq::<usize>::empty());
            assert(out@.to_multiset() =~= ident.to_multiset()) by {
                assert(rem@.to_multiset() =~= Multiset::<usize>::empty());
            }
            lemma_rank_total_ordering(self@);
            ident.lemma_sort_by_ensures(leq);
            lemma_sorted_unique(out@, rank_order(self@), leq);
            assert(out@ =~= rank_order(self@));
        }

        let mut r: Vec<Team> = Vec::new();
        let mut k: usize = 0;
        while k < out.len()
            invariant
                out@.len() == TEAM_COUNT,
                out@ == rank_order(self@),
                forall|j: int| 0 <= j < out@.len() ==> (#[trigger] out@[j]) < TEAM_COUNT,
                k <= out@.len(),
                r@.len() == k,
                forall|j: int| 0 <= j < k ==> (#[trigger] r@[j]) == team_at(out@[j] as int),
            decreases out@.len() - k,
        {
            r.push(team_of_index(out[k]));
            k = k + 1;
        }
        proof {
            assert forall|a: int, b: int| 0 <= a < b < r@.len() implies #[trigger] ranked_pair_ok(
                self@,
                r@[a],
                r@[b],
            ) by {
                let ia = rank_order(self@)[a];
                let ib = rank_order(self@)[b];
                assert(sorted_by(rank_order(self@), leq));
                assert(leq(ia, ib));
                lemma_rank_order_range(a, self@);
                lemma_rank_order_range(b, self@);
                crate::team::lemma_team_index_inverse(team_at(ia as int), ia as int);
                crate::team::lemma_team_index_inverse(team_at(ib as int), ib as int);
            }
        }
        r
    }
}

/// The ranked order is a permutation of the valid standings indices: it has
/// one entry per team and every entry is a valid index.
pub proof fn lemma_rank_order_range(k: int, v: Seq<Record>)
    requires
        0 <= k < TEAM_COUNT,
    ensures
        rank_order(v).len() == TEAM_COUNT,
        0 <= rank_order(v)[k] < TEAM_COUNT,
{
    broadcast use vstd::seq_lib::group_to_multiset_ensures;

    let ident = Seq::new(TEAM_COUNT as nat, |i: int| i as usize);
    let leq = rank_leq(v);
    lemma_rank_total_ordering(v);
    ident.lemma_sort_by_ensures(leq);
    assert(ident.to_multiset().len() == ident.len());
    assert(rank_order(v).to_multiset().len() == rank_order(v).len());
    let x = rank_order(v)[k];
    assert(rank_order(v).contains(x)) by {
        assert(rank_order(v)[k] == x);
    }
    assert(ident.contains(x));
    let j = choose|j: int| 0 <= j < ident.len() && ident[j] == x;
}

} // verus!

//! Rendering of the ranked table. The output is a pure function of the
//! standings: a Markdown-style table with a header row, a separator row, and
//! one row per team in ranking order, showing the display name, the
//! "wins-losses" record, and the average rounded to two decimals.

use vstd::prelude::*;
use vstd::arithmetic::div_mod::lemma_multiply_divide_lt;

use crate::numfmt::{append_two_digits, dec_digits, two_digits, u64_string};
use crate::rank::{avg_den, avg_num, rank_order};
use crate::record::Record;
use crate::standings::Standings;
use crate::team::{team_at, TEAM_COUNT};

verus! {

/// The average in centipoints, rounded to the nearest integer with halves
/// rounded away from zero (all values here are non-negative): the exact
/// value `num/den` plus one half, rounded down. Rounding happens only here,
/// at render time; the stored running average is never rounded.
pub open spec fn rounded_avg(r: Record) -> int {
    (2 * avg_num(r) + avg_den(r)) / (2 * avg_den(r))
}

/// The average column of a row: whole points, a dot, and exactly two
/// decimal digits.
pub open spec fn avg_chars(r: Record) -> Seq<char> {
    dec_digits(rounded_avg(r) / 100) + "."@ + two_digits(rounded_avg(r) % 100)
}

/// One table row for the team at standings index `i`.
pub open spec fn row_chars(v: Seq<Record>, i: int) -> Seq<char> {
    let r = v[i];
    "| "@ + team_at(i).name_spec() + " | "@ + dec_digits(r.wins as int) + "-"@ + dec_digits(
        r.games_played - r.wins,
    ) + " | "@ + avg_chars(r) + " |\n"@
}

/// The first `k` rows of the table, in ranking order.
pub open spec fn rows_prefix(v: Seq<Record>, ord: Seq<usize>, k: int) -> Seq<char>
    decreases k,
{
    if k <= 0 {
        Seq::empty()
    } else {
        rows_prefix(v, ord, k - 1) + row_chars(v, ord[k - 1] as int)
    }
}

/// The entire rendered table, determined by the standings alone.
pub open spec fn render_chars(v: Seq<Record>) -> Seq<char> {
    "| Team | Record | Average |\n"@ + "| --- | --- | --- |\n"@ + rows_prefix(
        v,
        rank_order(v),
        TEAM_COUNT as int,
    )
}

/// Rendering is a pure function of the standings: two renderings of equal
/// standings are the same text, character for character.
pub proof fn lemma_render_deterministic(v: Seq<Record>, out1: Seq<char>, out2: Seq<char>)
    requires
        out1 == render_chars(v),
        out2 == render_chars(v),
    ensures
        out1 == out2,
{
}

/// The rounded average fits the width of the unrounded one.
proof fn lemma_rounded_avg_bounds(r: Record)
    ensures
        0 <= rounded_avg(r) <= avg_num(r),
{
    let n = avg_num(r);
    let d = avg_den(r);
    assert(2 * n + d < (2 * d) * (n + 1)) by (nonlinear_arith)
        requires
            n >= 0,
            d >= 1,
    ;
    lemma_multiply_divide_lt(2 * n + d, 2 * d, n + 1);
    assert(rounded_avg(r) >= 0) by (nonlinear_arith)
        requires
            n >= 0,
            d >= 1,
    ;
}

impl Standings {
    /// The average column value: the exact average in centipoints, rounded
    /// half away from zero to an integer.
    fn rounded_avg_points(r: &Record) -> (h: u64)
        ensures
            h == rounded_avg(*r),
    {
        let n = r.total_points as u128;
        let d: u128 = if r.games_played == 0 {
            1
        } else {
            r.games_played as u128
        };
        proof {
            lemma_rounded_avg_bounds(*r);
        }
        let q = (2 * n + d) / (2 * d);
        q as u64
    }

    /// Renders the ranked table. The result is exactly `render_chars` of the
    /// current standings, so rendering is deterministic and pure, and the
    /// rows appear in ranking order.
    #[verifier::rlimit(100)]
    pub fn render(&self) -> (out: String)
        requires
            self.wf(),
        ensures
            out@ == render_chars(self@),
    {
        let ranked = self.ranking();
        let mut out = String::from_str("| Team | Record | Average |\n");
        out.append("| --- | --- | --- |\n");
        let ghost header: Seq<char> = "| Team | Record | Average |\n"@ + "| --- | --- | --- |\n"@;
        assert(out@ == header);
        let ghost ord = rank_order(self@);
        let mut k: usize = 0;
        while k < ranked.len()
            invariant
                self.wf(),
                ord == rank_order(self@),
                ranked@.len() == TEAM_COUNT,
                forall|j: int|
                    0 <= j < TEAM_COUNT ==> (#[trigger] ranked@[j]) == team_at(ord[j] as int),
                k <= TEAM_COUNT,
                out@ == header + rows_prefix(self@, ord, k as int),
            decreases TEAM_COUNT - k,
        {
            proof {
                crate::rank::lemma_rank_order_range(k as int, self@);
                crate::team::lemma_team_index_inverse(ranked@[k as int], ord[k as int] as int);
            }
            let team = ranked[k];
            let rec = *self.get(team);
            let ghost i: int = ord[k as int] as int;
            assert(rec == self@[i]);

            out.append("| ");
            out.append(team.name());
            out.append(" | ");
            let wins_s = u64_string(rec.wins as u64);
            out.append(wins_s.as_str());
            out.append("-");
            let losses_s = u64_string((rec.games_played - rec.wins) as u64);
            out.append(losses_s.as_str());
            out.append(" | ");
            let h = Self::rounded_avg_points(&rec);
            proof {
                lemma_rounded_avg_bounds(rec);
            }
            let whole_s = u64_string(h / 100);
            out.append(whole_s.as_str());
            out.append(".");
            append_two_digits(&mut out, h % 100);
            out.append(" |\n");

            proof {
                assert(out@ =~= header + (rows_prefix(self@, ord, k as int) + row_chars(self@, i)));
                assert(out@ == header + rows_prefix(self@, ord, k as int + 1));
            }
            k = k + 1;
        }
        out
    }
}

} // verus!

//! The rows of a comparison: what each row says of one benchmark, and the
//! order in which rows are reported.

use crate::stats::SummaryStats;
use crate::text::{
    char_count, decimal, decimal_string, pad_left, pad_left_string, round_half_even,
    round_half_even_u128, two_decimals, two_decimals_string, views,
};
use vstd::prelude::*;

verus! {

/// What the comparison of two intervals says of a benchmark.
#[derive(Copy, Clone, Debug, PartialEq, Eq, Structural)]
pub enum Significance {
    /// The intervals are apart, and the second mean is the smaller.
    Faster,
    /// The intervals are apart, and the second mean is not the smaller.
    Slower,
    /// The intervals overlap.
    Indistinguishable,
}

/// The widths of the number columns, shared by all rows of one report.
#[derive(Copy, Clone, Debug, PartialEq, Eq, Structural)]
pub struct Widths {
    /// The width of a mean.
    pub mean: usize,
    /// The width of an interval's half-width.
    pub ci: usize,
    /// The width of a ratio, its two decimals included.
    pub ratio: usize,
}

/// One row of a comparison.
#[derive(Debug)]
pub struct Row {
    /// The benchmark.
    pub key: String,
    /// Its statistics in the first result file.
    pub before: SummaryStats,
    /// Its statistics in the second result file.
    pub after: SummaryStats,
    /// What the two intervals say.
    pub significance: Significance,
    /// The first mean, give or take its half-width, in whole milliseconds.
    pub before_text: String,
    /// The second mean, give or take its half-width, in whole milliseconds.
    pub after_text: String,
    /// The second mean over the first, with two decimals.
    pub ratio_text: String,
    /// The change in percent and its direction, or that there is none to tell.
    pub summary: String,
}

/// A row as a mathematical value.
pub struct RowView {
    pub key: Seq<char>,
    pub before: SummaryStats,
    pub after: SummaryStats,
    pub significance: Significance,
    pub before_text: Seq<char>,
    pub after_text: Seq<char>,
    pub ratio_text: Seq<char>,
    pub summary: Seq<char>,
}

impl View for Row {
    type V = RowView;

    open spec fn view(&self) -> RowView {
        RowView {
            key: self.key@,
            before: self.before,
            after: self.after,
            significance: self.significance,
            before_text: self.before_text@,
            after_text: self.after_text@,
            ratio_text: self.ratio_text@,
            summary: self.summary@,
        }
    }
}

/// The views of a list of rows.
pub open spec fn row_views(rows: Seq<Row>) -> Seq<RowView> {
    Seq::new(rows.len(), |i: int| rows[i]@)
}

/// A statistic in whole milliseconds, rounded to the nearest, a tie to the even.
pub open spec fn whole_ms(units: nat) -> nat {
    round_half_even(units, 1_000_000)
}

/// The ratio of the second mean to the first, rounded to a whole number.
pub open spec fn whole_ratio(before: SummaryStats, after: SummaryStats) -> nat {
    round_half_even(after.mean as nat, before.mean as nat)
}

/// What is written for a quotient by a first mean of zero: `NaN` where the
/// second mean is zero too, so that there is no quotient, and `inf` where it
/// is not, so that the quotient is beyond all numbers.
pub open spec fn no_number(after: SummaryStats) -> Seq<char> {
    if after.mean == 0 {
        "NaN"@
    } else {
        "inf"@
    }
}

/// The ratio of the second mean to the first as a whole number.
pub open spec fn whole_ratio_text(before: SummaryStats, after: SummaryStats) -> Seq<char> {
    if before.mean == 0 {
        no_number(after)
    } else {
        decimal(whole_ratio(before, after))
    }
}

/// The ratio of the second mean to the first with two decimals.
pub open spec fn ratio_text(before: SummaryStats, after: SummaryStats) -> Seq<char> {
    if before.mean == 0 {
        no_number(after)
    } else {
        two_decimals(ratio_hundredths(before, after))
    }
}

/// The size of the change in percent of the first mean, with two decimals.
pub open spec fn change_text(before: SummaryStats, after: SummaryStats) -> Seq<char> {
    if before.mean == 0 {
        no_number(after)
    } else {
        two_decimals(change_hundredths(before, after))
    }
}

/// The ratio of the second mean to the first, in hundredths.
pub open spec fn ratio_hundredths(before: SummaryStats, after: SummaryStats) -> nat {
    round_half_even((after.mean * 100) as nat, before.mean as nat)
}

/// The size of the change from the first mean to the second, in hundredths
/// of a percent of the first.
pub open spec fn change_hundredths(before: SummaryStats, after: SummaryStats) -> nat {
    let distance = if after.mean >= before.mean {
        after.mean - before.mean
    } else {
        before.mean - after.mean
    };
    round_half_even((distance * 10_000) as nat, before.mean as nat)
}

/// What the two intervals say: overlapping intervals cannot be told apart;
/// otherwise the benchmark became faster where its mean fell, slower where not.
pub open spec fn spec_significance(before: SummaryStats, after: SummaryStats) -> Significance {
    if before.spec_ci_overlaps(&after) {
        Significance::Indistinguishable
    } else if after.mean < before.mean {
        Significance::Faster
    } else {
        Significance::Slower
    }
}

/// A benchmark cannot be told apart exactly where its two intervals overlap.
pub proof fn lemma_indistinguishable_iff_overlap(before: SummaryStats, after: SummaryStats)
    ensures
        spec_significance(before, after) == Significance::Indistinguishable
            <==> before.spec_ci_overlaps(&after),
{
}

/// A mean give or take its half-width, each right-aligned in its column.
pub open spec fn stat_text(stats: SummaryStats, widths: Widths) -> Seq<char> {
    pad_left(decimal(whole_ms(stats.mean as nat)), widths.mean as nat) + seq![' ', '\u{b1}']
        + pad_left(decimal(whole_ms(stats.ci as nat)), widths.ci as nat)
}

/// The last cell of a row.
pub open spec fn summary_text(before: SummaryStats, after: SummaryStats) -> Seq<char> {
    match spec_significance(before, after) {
        Significance::Indistinguishable => "indistinguishable"@,
        Significance::Faster => change_text(before, after) + "% faster"@,
        Significance::Slower => change_text(before, after) + "% slower"@,
    }
}

/// Statistics that a row can be made of: those of times, whose means are
/// not negative.
pub open spec fn comparable(before: SummaryStats, after: SummaryStats) -> bool {
    before.mean >= 0 && after.mean >= 0
}

/// The row that reports `before` and `after` for the benchmark `key`.
pub open spec fn spec_row(
    key: Seq<char>,
    before: SummaryStats,
    after: SummaryStats,
    widths: Widths,
) -> RowView {
    RowView {
        key,
        before,
        after,
        significance: spec_significance(before, after),
        before_text: stat_text(before, widths),
        after_text: stat_text(after, widths),
        ratio_text: pad_left(ratio_text(before, after), widths.ratio as nat),
        summary: summary_text(before, after),
    }
}

/// The row has no relative change: both of its means are zero.
pub open spec fn without_change(r: RowView) -> bool {
    r.before.mean == 0 && r.after.mean == 0
}

/// The relative change of `a` is at most that of `b`. The two changes are
/// compared exactly: `a.after / a.before <= b.after / b.before`, multiplied
/// out, which puts a change from a first mean of zero after all others. A
/// row without a relative change counts as the largest of all.
pub open spec fn change_le(a: RowView, b: RowView) -> bool {
    if without_change(b) {
        true
    } else if without_change(a) {
        false
    } else {
        a.after.mean * b.before.mean <= b.after.mean * a.before.mean
    }
}

/// Whether the row tells a change.
pub open spec fn is_significant(r: RowView) -> bool {
    r.significance != Significance::Indistinguishable
}

/// `a` may stand before `b` in a report: rows that tell a change come first,
/// and among rows of one kind the smaller relative change.
pub open spec fn row_le(a: RowView, b: RowView) -> bool {
    if is_significant(a) == is_significant(b) {
        change_le(a, b)
    } else {
        is_significant(a)
    }
}

/// The rows are in the order of a report.
pub open spec fn ordered(rows: Seq<RowView>) -> bool {
    forall|i: int, j: int| 0 <= i < j < rows.len() ==> row_le(rows[i], rows[j])
}

/// Of two rows one may stand before the other.
pub proof fn lemma_row_le_total(a: RowView, b: RowView)
    ensures
        row_le(a, b) || row_le(b, a),
{
}

/// The order of rows is transitive.
pub proof fn lemma_row_le_transitive(a: RowView, b: RowView, c: RowView)
    requires
        comparable(a.before, a.after),
        comparable(b.before, b.after),
        comparable(c.before, c.after),
        row_le(a, b),
        row_le(b, c),
    ensures
        row_le(a, c),
{
    if is_significant(a) == is_significant(b) && is_significant(b) == is_significant(c)
        && !without_change(c) {
        let (a1, a2) = (a.before.mean as int, a.after.mean as int);
        let (b1, b2) = (b.before.mean as int, b.after.mean as int);
        let (c1, c2) = (c.before.mean as int, c.after.mean as int);
        assert(!without_change(b) && !without_change(a));
        assert(a2 * c1 <= c2 * a1) by (nonlinear_arith)
            requires
                a2 * b1 <= b2 * a1,
                b2 * c1 <= c2 * b1,
                a1 >= 0 && a2 >= 0 && a1 + a2 > 0,
                b1 >= 0 && b2 >= 0 && b1 + b2 > 0,
                c1 >= 0 && c2 >= 0 && c1 + c2 > 0,
        {
            if b1 == 0 {
                // the change of `b` is beyond all numbers, and so is that of `c`
                assert(b2 * c1 <= 0);
                assert(c1 == 0);
            } else if a1 == 0 {
                assert(a2 * b1 <= 0);
            } else if c1 > 0 {
                assert((a2 * b1) * c1 <= (b2 * a1) * c1);
                assert((b2 * c1) * a1 <= (c2 * b1) * a1);
                assert((a2 * c1) * b1 <= (c2 * a1) * b1);
            }
        }
    }
}

/// The width of the widest among `texts`, and at least 1.
pub open spec fn spec_width(texts: Seq<Seq<char>>) -> nat
    decreases texts.len(),
{
    if texts.len() == 0 {
        1
    } else {
        let rest = spec_width(texts.drop_last());
        let last = texts.last().len();
        if last > rest {
            last
        } else {
            rest
        }
    }
}

/// A column is at least one character wide, and no wider than a bound on
/// its texts.
pub proof fn lemma_width_bounds(texts: Seq<Seq<char>>, bound: nat)
    requires
        bound >= 1,
        forall|i: int| 0 <= i < texts.len() ==> (#[trigger] texts[i]).len() <= bound,
    ensures
        1 <= spec_width(texts) <= bound,
    decreases texts.len(),
{
    if texts.len() > 0 {
        lemma_width_bounds(texts.drop_last(), bound);
    }
}

/// Computes a consistent width for the texts of a column, so that they all
/// line up: the width of the widest of them.
pub fn compute_width(texts: &Vec<String>) -> (width: usize)
    ensures
        width == spec_width(views(texts@)),
{
    let ghost all: Seq<Seq<char>> = views(texts@);
    let mut width: usize = 1;
    let mut i: usize = 0;
    while i < texts.len()
        invariant
            i <= texts.len(),
            all == views(texts@),
            width == spec_width(all.take(i as int)),
        decreases texts.len() - i,
    {
        let len: usize = char_count(&texts[i]);
        proof {
            assert(all.take(i + 1).drop_last() =~= all.take(i as int));
            assert(all.take(i + 1).last() == texts[i as int]@);
        }
        if len > width {
            width = len;
        }
        i += 1;
    }
    proof {
        assert(all.take(texts.len() as int) =~= all);
    }
    width
}

/// Writes what stands for a quotient by a first mean of zero.
fn no_number_string(after: &SummaryStats) -> (text: String)
    ensures
        text@ == no_number(*after),
{
    if after.mean == 0 {
        "NaN".to_owned()
    } else {
        "inf".to_owned()
    }
}

/// Writes the ratio of the second mean to the first as a whole number.
pub fn whole_ratio_string(before: &SummaryStats, after: &SummaryStats) -> (text: String)
    requires
        comparable(*before, *after),
    ensures
        text@ == whole_ratio_text(*before, *after),
{
    if before.mean == 0 {
        no_number_string(after)
    } else {
        decimal_string(round_half_even_u128(after.mean as u128, before.mean as u128))
    }
}

/// Writes a statistic in whole milliseconds.
pub fn whole_ms_string(units: u64) -> (text: String)
    ensures
        text@ == decimal(whole_ms(units as nat)),
{
    decimal_string(round_half_even_u128(units as u128, 1_000_000))
}

/// Writes a mean give or take its half-width, each right-aligned in its column.
pub fn stat_string(stats: &SummaryStats, widths: &Widths) -> (text: String)
    requires
        stats.mean >= 0,
    ensures
        text@ == stat_text(*stats, *widths),
{
    let mut text: String = pad_left_string(&whole_ms_string(stats.mean as u64), widths.mean);
    proof {
        reveal_strlit(" \u{b1}");
        assert(" \u{b1}"@ =~= seq![' ', '\u{b1}']);
    }
    text.append(" \u{b1}");
    text.append(pad_left_string(&whole_ms_string(stats.ci), widths.ci).as_str());
    text
}

/// Makes the row that reports `before` and `after` for the benchmark `key`.
pub fn make_row(key: String, before: SummaryStats, after: SummaryStats, widths: &Widths) -> (row: Row)
    requires
        comparable(before, after),
    ensures
        row@ == spec_row(key@, before, after, *widths),
{
    let base: u128 = before.mean as u128;
    let ratio: String = if before.mean == 0 {
        no_number_string(&after)
    } else {
        two_decimals_string(round_half_even_u128(after.mean as u128 * 100, base))
    };
    let significance: Significance = if before.ci_overlaps(&after) {
        Significance::Indistinguishable
    } else if after.mean < before.mean {
        Significance::Faster
    } else {
        Significance::Slower
    };
    let summary: String = match significance {
        Significance::Indistinguishable => "indistinguishable".to_owned(),
        _ => {
            let mut text: String = if before.mean == 0 {
                no_number_string(&after)
            } else {
                let distance: u128 = if after.mean >= before.mean {
                    (after.mean - before.mean) as u128
                } else {
                    (before.mean - after.mean) as u128
                };
                two_decimals_string(round_half_even_u128(distance * 10_000, base))
            };
            match significance {
                Significance::Faster => text.append("% faster"),
                _ => text.append("% slower"),
            }
            text
        },
    };
    Row {
        key,
        before,
        after,
        significance,
        before_text: stat_string(&before, widths),
        after_text: stat_string(&after, widths),
        ratio_text: pad_left_string(&ratio, widths.ratio),
        summary,
    }
}

proof fn lemma_product_fits(x: i64, y: i64)
    ensures
        i128::MIN <= x * y <= i128::MAX,
{
    assert(-0x4000_0000_0000_0000_0000_0000_0000_0000 <= x * y
        <= 0x4000_0000_0000_0000_0000_0000_0000_0000) by (nonlinear_arith)
        requires
            -0x8000_0000_0000_0000 <= x <= 0x8000_0000_0000_0000,
            -0x8000_0000_0000_0000 <= y <= 0x8000_0000_0000_0000,
    ;
}

/// Whether `a` may stand before `b` in a report.
pub fn stands_before(a: &Row, b: &Row) -> (r: bool)
    ensures
        r == row_le(a@, b@),
{
    let a_tells: bool = a.significance != Significance::Indistinguishable;
    let b_tells: bool = b.significance != Significance::Indistinguishable;
    if a_tells != b_tells {
        a_tells
    } else if b.before.mean == 0 && b.after.mean == 0 {
        true
    } else if a.before.mean == 0 && a.after.mean == 0 {
        false
    } else {
        proof {
            lemma_product_fits(a.after.mean, b.before.mean);
            lemma_product_fits(b.after.mean, a.before.mean);
        }
        let left: i128 = a.after.mean as i128 * b.before.mean as i128;
        let right: i128 = b.after.mean as i128 * a.before.mean as i128;
        left <= right
    }
}

} // verus!

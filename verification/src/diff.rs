//! The comparison of two result files.

use crate::confidence::ConfidenceLevel;
use crate::keymap::KeyMap;
use crate::report::{
    comparable, compute_width, lemma_row_le_total, lemma_row_le_transitive, lemma_width_bounds,
    make_row, ordered, row_le, row_views, spec_row, spec_significance, spec_width, stands_before,
    whole_ms, whole_ms_string, whole_ratio, whole_ratio_string, whole_ratio_text, Row, RowView,
    Significance, Widths,
};
use crate::results::{spec_summary, DimsError, ResultFile};
use crate::stats::{lemma_mean_bounds, SummaryStats};
use crate::text::{decimal, lemma_decimal_len_u64, views};
use vstd::arithmetic::div_mod::lemma_div_nonincreasing;
use vstd::prelude::*;
use vstd::seq_lib::*;

verus! {

/// The comparison of two result files: one row for each benchmark.
#[derive(Debug)]
pub struct Report {
    /// The widths of the number columns.
    pub widths: Widths,
    /// The rows: first those that tell a change, then the others, each group
    /// by rising relative change.
    pub rows: Vec<Row>,
}

/// The statistics of the first file, in the order of its keys.
pub open spec fn befores(first: &ResultFile, level: ConfidenceLevel) -> Seq<SummaryStats> {
    Seq::new(first.keys().len(), |i: int| spec_summary(first.samples()[i], level))
}

/// The statistics of the second file, in the order of the first file's keys.
pub open spec fn afters(first: &ResultFile, second: &ResultFile, level: ConfidenceLevel) -> Seq<
    SummaryStats,
> {
    Seq::new(first.keys().len(), |i: int| spec_summary(second@[first.keys()[i]], level))
}

/// All means of a comparison, in whole milliseconds.
pub open spec fn mean_column(befores: Seq<SummaryStats>, afters: Seq<SummaryStats>) -> Seq<
    Seq<char>,
> {
    Seq::new(befores.len(), |i: int| decimal(whole_ms(befores[i].mean as nat))) + Seq::new(
        afters.len(),
        |i: int| decimal(whole_ms(afters[i].mean as nat)),
    )
}

/// All half-widths of a comparison, in whole milliseconds.
pub open spec fn ci_column(befores: Seq<SummaryStats>, afters: Seq<SummaryStats>) -> Seq<
    Seq<char>,
> {
    Seq::new(befores.len(), |i: int| decimal(whole_ms(befores[i].ci as nat))) + Seq::new(
        afters.len(),
        |i: int| decimal(whole_ms(afters[i].ci as nat)),
    )
}

/// All ratios of a comparison, as whole numbers.
pub open spec fn ratio_column(befores: Seq<SummaryStats>, afters: Seq<SummaryStats>) -> Seq<
    Seq<char>,
> {
    Seq::new(befores.len(), |i: int| whole_ratio_text(befores[i], afters[i]))
}

/// The column widths of a comparison: each number column is as wide as its
/// widest whole number; a ratio takes three characters more, for its decimals.
pub open spec fn spec_widths(befores: Seq<SummaryStats>, afters: Seq<SummaryStats>) -> Widths {
    Widths {
        mean: spec_width(mean_column(befores, afters)) as usize,
        ci: spec_width(ci_column(befores, afters)) as usize,
        ratio: (spec_width(ratio_column(befores, afters)) + 3) as usize,
    }
}

/// The rows of a comparison, in the order of the first file's keys.
pub open spec fn spec_rows(first: &ResultFile, second: &ResultFile, level: ConfidenceLevel) -> Seq<
    RowView,
> {
    let b = befores(first, level);
    let a = afters(first, second, level);
    Seq::new(first.keys().len(), |i: int| spec_row(first.keys()[i], b[i], a[i], spec_widths(b, a)))
}

/// Rows that the order of a report does not tell apart stand as their keys
/// stand in `keys`.
pub open spec fn in_key_order(keys: Seq<Seq<char>>, rows: Seq<RowView>) -> bool {
    forall|i: int, j: int|
        0 <= i < j < rows.len() && row_le(rows[j], rows[i]) ==> keys.index_of(rows[i].key)
            < keys.index_of(rows[j].key)
}

/// The whole number of a ratio has at most twenty characters.
proof fn lemma_whole_ratio_len(before: SummaryStats, after: SummaryStats)
    requires
        comparable(before, after),
    ensures
        whole_ratio_text(before, after).len() <= 20,
{
    if before.mean == 0 {
        reveal_strlit("NaN");
        reveal_strlit("inf");
    } else {
        lemma_div_nonincreasing(after.mean as int, before.mean as int);
        let whole = whole_ratio(before, after);
        assert(whole <= after.mean + 1);
        lemma_decimal_len_u64(whole as u64);
    }
}

/// Puts `row` into `rows` where the order of a report wants it, and says where.
fn insert_ordered(rows: &mut Vec<Row>, row: Row) -> (pos: usize)
    requires
        ordered(row_views(old(rows)@)),
        comparable(row.before, row.after),
        forall|k: int|
            0 <= k < old(rows).len() ==> comparable(
                (#[trigger] old(rows)[k]).before,
                old(rows)[k].after,
            ),
    ensures
        ordered(row_views(final(rows)@)),
        pos <= old(rows).len(),
        final(rows).len() == old(rows).len() + 1,
        row_views(final(rows)@) == row_views(old(rows)@).insert(pos as int, row@),
        forall|k: int|
            pos <= k < old(rows).len() ==> !row_le(#[trigger] row_views(old(rows)@)[k], row@),
{
    let ghost before: Seq<RowView> = row_views(rows@);
    let mut pos: usize = 0;
    while pos < rows.len() && stands_before(&rows[pos], &row)
        invariant
            pos <= rows.len(),
            rows@ == old(rows)@,
            before == row_views(rows@),
            forall|k: int| 0 <= k < pos ==> row_le(#[trigger] before[k], row@),
        decreases rows.len() - pos,
    {
        pos += 1;
    }
    proof {
        assert forall|k: int| pos <= k < before.len() implies row_le(row@, #[trigger] before[k])
            && !row_le(before[k], row@) by {
            lemma_row_le_total(before[pos as int], row@);
            assert(before[pos as int] == rows[pos as int]@);
            assert(before[k] == rows[k]@);
            if k > pos {
                assert(row_le(before[pos as int], before[k]));
                lemma_row_le_transitive(row@, before[pos as int], before[k]);
                if row_le(before[k], row@) {
                    lemma_row_le_transitive(before[pos as int], before[k], row@);
                }
            }
        }
    }
    rows.insert(pos, row);
    proof {
        let after: Seq<RowView> = row_views(rows@);
        assert(after =~= before.insert(pos as int, row@));
        assert forall|i: int, j: int| 0 <= i < j < after.len() implies row_le(after[i], after[j]) by {
            if i < pos && j > pos {
                assert(after[i] == before[i]);
                assert(after[j] == before[j - 1]);
            } else if i < pos && j < pos {
                assert(after[i] == before[i]);
                assert(after[j] == before[j]);
            } else if i > pos {
                assert(after[i] == before[i - 1]);
                assert(after[j] == before[j - 1]);
            } else if i == pos {
                assert(after[j] == before[j - 1]);
            } else {
                assert(after[i] == before[i]);
            }
        }
    }
    pos
}

/// Compares two result files at the given confidence level.
///
/// The files must have the same benchmarks, each with as many samples in the
/// one as in the other. The report then holds one row for each benchmark:
/// first the rows that tell a change, then the others, each group by rising
/// relative change, and rows of the same change as their keys stand in the
/// first file.
pub fn diff(first: &ResultFile, second: &ResultFile, confidence: ConfidenceLevel) -> (r: Result<
    Report,
    DimsError,
>)
    requires
        first.wf(),
        second.wf(),
        first.countable(),
        second.countable(),
    ensures
        r is Ok <==> first.spec_same_dims(second),
        r matches Err(DimsError::DifferentBenchmarks) <==> first@.dom() != second@.dom(),
        r matches Err(DimsError::DifferentProcExecs { key }) ==> exists|i: int|
            0 <= i < first.keys().len() && first.keys()[i] == key@ && first.mismatch_at(second, i)
                && forall|j: int| 0 <= j < i ==> !first.mismatch_at(second, j),
        r matches Ok(report) ==> {
            let rows = row_views(report.rows@);
            &&& report.widths == spec_widths(
                befores(first, confidence),
                afters(first, second, confidence),
            )
            &&& rows.to_multiset() == spec_rows(first, second, confidence).to_multiset()
            &&& ordered(rows)
            &&& in_key_order(first.keys(), rows)
            &&& forall|k: int|
                0 <= k < rows.len() ==> ((#[trigger] rows[k]).significance
                    == Significance::Indistinguishable <==> rows[k].before.spec_ci_overlaps(
                    &rows[k].after,
                ))
        },
{
    match first.same_dims(second) {
        Err(e) => {
            return Err(e);
        },
        Ok(_) => {},
    }
    let summaries1: KeyMap<SummaryStats> = first.summarise(confidence);
    let summaries2: KeyMap<SummaryStats> = second.summarise(confidence);
    let n: usize = first.len();
    let ghost b: Seq<SummaryStats> = befores(first, confidence);
    let ghost a: Seq<SummaryStats> = afters(first, second, confidence);
    proof {
        first.lemma_wf();
        second.lemma_wf();
    }

    // The statistics of the second file, brought into the order of the first.
    let mut aligned: Vec<SummaryStats> = Vec::new();
    let mut i: usize = 0;
    while i < n
        invariant
            first.wf(),
            second.wf(),
            first.spec_same_dims(second),
            i <= n,
            n == first.keys().len(),
            summaries1.wf(),
            summaries2.wf(),
            summaries1.spec_keys() == first.keys(),
            summaries2.spec_keys() == second.keys(),
            summaries1.spec_values() == b,
            summaries2.spec_values() == Seq::new(
                second.keys().len(),
                |l: int| spec_summary(second.samples()[l], confidence),
            ),
            b == befores(first, confidence),
            a == afters(first, second, confidence),
            aligned@ == a.take(i as int),
            forall|j: int| 0 <= j < i ==> comparable(#[trigger] b[j], a[j]),
        decreases n - i,
    {
        proof {
            first.lemma_wf();
            second.lemma_wf();
        }
        let key: &String = first.key_at(i);
        let found: Option<usize> = summaries2.find(key.as_str());
        assert(found is Some) by {
            assert(first@.dom().contains(key@));
            assert(second@.dom().contains(key@));
        }
        let j: usize = found.unwrap();
        let after: SummaryStats = *summaries2.value_at(j);
        proof {
            assert(second@[key@] == second.samples()[j as int]);
            assert(after == a[i as int]);
            lemma_mean_bounds(first.samples()[i as int]);
            lemma_mean_bounds(second.samples()[j as int]);
        }
        aligned.push(after);
        proof {
            assert(a.take(i + 1) =~= a.take(i as int).push(after));
        }
        i += 1;
    }
    proof {
        assert(a.take(n as int) =~= a);
    }

    // The number columns, and their widths.
    let mut means: Vec<String> = Vec::new();
    let mut cis: Vec<String> = Vec::new();
    let mut ratios: Vec<String> = Vec::new();
    let mut i: usize = 0;
    while i < n
        invariant
            i <= n,
            n == b.len(),
            n == a.len(),
            summaries1.wf(),
            summaries1.spec_values() == b,
            aligned@ == a,
            forall|j: int| 0 <= j < n ==> comparable(#[trigger] b[j], a[j]),
            views(means@) == Seq::new(i as nat, |l: int| decimal(whole_ms(b[l].mean as nat))),
            views(cis@) == Seq::new(i as nat, |l: int| decimal(whole_ms(b[l].ci as nat))),
            views(ratios@) == Seq::new(i as nat, |l: int| whole_ratio_text(b[l], a[l])),
        decreases n - i,
    {
        let before: SummaryStats = *summaries1.value_at(i);
        let after: SummaryStats = aligned[i];
        assert(comparable(b[i as int], a[i as int]));
        let ghost texts = (views(means@), views(cis@), views(ratios@));
        means.push(whole_ms_string(before.mean as u64));
        cis.push(whole_ms_string(before.ci));
        ratios.push(whole_ratio_string(&before, &after));
        proof {
            assert(views(means@) =~= texts.0.push(decimal(whole_ms(b[i as int].mean as nat))));
            assert(views(cis@) =~= texts.1.push(decimal(whole_ms(b[i as int].ci as nat))));
            assert(views(ratios@) =~= texts.2.push(whole_ratio_text(b[i as int], a[i as int])));
            assert(views(means@) =~= Seq::new(
                (i + 1) as nat,
                |l: int| decimal(whole_ms(b[l].mean as nat)),
            ));
            assert(views(cis@) =~= Seq::new(
                (i + 1) as nat,
                |l: int| decimal(whole_ms(b[l].ci as nat)),
            ));
            assert(views(ratios@) =~= Seq::new(
                (i + 1) as nat,
                |l: int| whole_ratio_text(b[l], a[l]),
            ));
        }
        i += 1;
    }
    let ghost means1: Seq<Seq<char>> = views(means@);
    let ghost cis1: Seq<Seq<char>> = views(cis@);
    let mut i: usize = 0;
    assert(views(means@) =~= means1 + Seq::new(0, |l: int| decimal(whole_ms(a[l].mean as nat))));
    assert(views(cis@) =~= cis1 + Seq::new(0, |l: int| decimal(whole_ms(a[l].ci as nat))));
    while i < n
        invariant
            i <= n,
            n == b.len(),
            n == a.len(),
            aligned@ == a,
            forall|j: int| 0 <= j < n ==> comparable(#[trigger] b[j], a[j]),
            views(means@) == means1 + Seq::new(
                i as nat,
                |l: int| decimal(whole_ms(a[l].mean as nat)),
            ),
            views(cis@) == cis1 + Seq::new(i as nat, |l: int| decimal(whole_ms(a[l].ci as nat))),
        decreases n - i,
    {
        let after: SummaryStats = aligned[i];
        assert(comparable(b[i as int], a[i as int]));
        let ghost texts = (views(means@), views(cis@));
        means.push(whole_ms_string(after.mean as u64));
        cis.push(whole_ms_string(after.ci));
        proof {
            assert(views(means@) =~= texts.0.push(decimal(whole_ms(a[i as int].mean as nat))));
            assert(views(cis@) =~= texts.1.push(decimal(whole_ms(a[i as int].ci as nat))));
            assert(views(means@) =~= means1 + Seq::new(
                (i + 1) as nat,
                |l: int| decimal(whole_ms(a[l].mean as nat)),
            ));
            assert(views(cis@) =~= cis1 + Seq::new(
                (i + 1) as nat,
                |l: int| decimal(whole_ms(a[l].ci as nat)),
            ));
        }
        i += 1;
    }
    proof {
        assert(views(means@) =~= mean_column(b, a));
        assert(views(cis@) =~= ci_column(b, a));
        assert(views(ratios@) =~= ratio_column(b, a));
        assert forall|l: int| 0 <= l < ratio_column(b, a).len() implies (#[trigger] ratio_column(
            b,
            a,
        )[l]).len() <= 20 by {
            assert(comparable(b[l], a[l]));
            lemma_whole_ratio_len(b[l], a[l]);
        }
        lemma_width_bounds(ratio_column(b, a), 20);
    }
    let widths: Widths = Widths {
        mean: compute_width(&means),
        ci: compute_width(&cis),
        ratio: compute_width(&ratios) + 3,
    };
    assert(widths == spec_widths(b, a));

    // The rows, each put where the order of the report wants it.
    let ghost wanted: Seq<RowView> = spec_rows(first, second, confidence);
    let mut rows: Vec<Row> = Vec::new();
    let mut i: usize = 0;
    proof {
        assert(row_views(rows@) =~= wanted.take(0));
    }
    while i < n
        invariant
            first.wf(),
            i <= n,
            n == first.keys().len(),
            n == b.len(),
            n == a.len(),
            summaries1.wf(),
            summaries1.spec_values() == b,
            aligned@ == a,
            b == befores(first, confidence),
            a == afters(first, second, confidence),
            widths == spec_widths(b, a),
            wanted == spec_rows(first, second, confidence),
            forall|j: int| 0 <= j < n ==> comparable(#[trigger] b[j], a[j]),
            ordered(row_views(rows@)),
            in_key_order(first.keys(), row_views(rows@)),
            forall|k: int|
                0 <= k < rows.len() ==> first.keys().index_of((#[trigger] rows[k]).key@) < i,
            row_views(rows@).to_multiset() == wanted.take(i as int).to_multiset(),
            forall|k: int|
                0 <= k < rows.len() ==> comparable((#[trigger] rows[k]).before, rows[k].after),
            forall|k: int|
                0 <= k < rows.len() ==> (#[trigger] rows[k]).significance == spec_significance(
                    rows[k].before,
                    rows[k].after,
                ),
        decreases n - i,
    {
        let key: String = first.key_at(i).clone();
        let before: SummaryStats = *summaries1.value_at(i);
        let after: SummaryStats = aligned[i];
        assert(comparable(b[i as int], a[i as int]));
        let row: Row = make_row(key, before, after, &widths);
        let ghost earlier: Seq<RowView> = row_views(rows@);
        let ghost made: RowView = row@;
        let at: usize = insert_ordered(&mut rows, row);
        proof {
            assert(made == wanted[i as int]);
            let pos = at as int;
            to_multiset_insert(earlier, pos, made);
            assert(wanted.take(i + 1) =~= wanted.take(i as int).push(made));
            to_multiset_build(wanted.take(i as int), made);
            let keys = first.keys();
            first.lemma_wf();
            assert(keys.index_of(made.key) == i) by {
                let l = keys.index_of(keys[i as int]);
                assert(keys[l] == keys[i as int]);
            }
            let v = row_views(rows@);
            assert forall|k: int| 0 <= k < rows.len() implies comparable(
                (#[trigger] rows[k]).before,
                rows[k].after,
            ) && rows[k].significance == spec_significance(rows[k].before, rows[k].after)
                && keys.index_of(rows[k].key@) < i + 1 by {
                assert(v[k] == rows[k]@);
                if k < pos {
                    assert(v[k] == earlier[k]);
                } else if k > pos {
                    assert(v[k] == earlier[k - 1]);
                }
            }
            assert forall|x: int, y: int| 0 <= x < y < v.len() && row_le(v[y], v[x]) implies keys.index_of(
                v[x].key,
            ) < keys.index_of(v[y].key) by {
                assert(v[x] == rows[x]@ && v[y] == rows[y]@);
                if x < pos && y > pos {
                    assert(v[x] == earlier[x] && v[y] == earlier[y - 1]);
                } else if x < pos && y < pos {
                    assert(v[x] == earlier[x] && v[y] == earlier[y]);
                } else if x > pos {
                    assert(v[x] == earlier[x - 1] && v[y] == earlier[y - 1]);
                } else if x == pos {
                    assert(v[y] == earlier[y - 1]);
                    assert(!row_le(earlier[y - 1], made));
                } else {
                    assert(v[x] == earlier[x]);
                }
            }
        }
        i += 1;
    }
    proof {
        assert(wanted.take(n as int) =~= wanted);
        let views = row_views(rows@);
        assert forall|k: int| 0 <= k < views.len() implies ((#[trigger] views[k]).significance
            == Significance::Indistinguishable <==> views[k].before.spec_ci_overlaps(
            &views[k].after,
        )) by {
            assert(views[k] == rows[k]@);
        }
    }
    Ok(Report { widths, rows })
}

} // verus!

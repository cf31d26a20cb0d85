use haste::confidence::ConfidenceLevel;
use haste::diff::diff;
use haste::report::{compute_width, make_row, stands_before, Significance, Widths};
use haste::results::{DimsError, ResultFile};
use haste::stats::SummaryStats;

fn file(entries: &[(&str, &[u32])]) -> ResultFile {
    let mut file = ResultFile::new();
    for (key, samples) in entries {
        for sample in samples.iter() {
            file.append(key, *sample);
        }
    }
    file
}

#[test]
fn diff_of_a_slower_benchmark() {
    let a = file(&[("bench/exec/", &[100, 110, 120])]);
    let b = file(&[("bench/exec/", &[200, 210, 220])]);
    let report = diff(&a, &b, ConfidenceLevel::CL99).unwrap();
    assert_eq!(report.widths, Widths { mean: 3, ci: 2, ratio: 4 });
    assert_eq!(report.rows.len(), 1);
    let row = &report.rows[0];
    assert_eq!(row.key, "bench/exec/");
    assert_eq!(row.before.mean, 110_000_000);
    assert_eq!(row.after.mean, 210_000_000);
    assert_eq!(row.before_text, "110 \u{b1}15");
    assert_eq!(row.after_text, "210 \u{b1}15");
    assert_eq!(row.ratio_text, "1.91");
    assert_eq!(row.significance, Significance::Slower);
    assert_eq!(row.summary, "90.91% slower");
}

#[test]
fn diff_of_a_faster_benchmark() {
    let a = file(&[("bench/exec/", &[200, 210, 220])]);
    let b = file(&[("bench/exec/", &[100, 110, 120])]);
    let report = diff(&a, &b, ConfidenceLevel::CL99).unwrap();
    let row = &report.rows[0];
    assert_eq!(row.ratio_text, "0.52");
    assert_eq!(row.significance, Significance::Faster);
    assert_eq!(row.summary, "47.62% faster");
}

#[test]
fn diff_of_disjoint_benchmarks() {
    let a = file(&[("one/exec/", &[100, 110, 120])]);
    let b = file(&[("two/exec/", &[100, 110, 120])]);
    match diff(&a, &b, ConfidenceLevel::CL99) {
        Err(DimsError::DifferentBenchmarks) => {}
        other => panic!("unexpected: {:?}", other),
    }
    assert_eq!(
        diff(&a, &b, ConfidenceLevel::CL99).unwrap_err().to_string(),
        "results files contain different benchmarks"
    );
}

#[test]
fn diff_of_different_numbers_of_process_executions() {
    let a = file(&[("bench/exec/", &[100, 110, 120])]);
    let b = file(&[("bench/exec/", &[100, 110])]);
    match diff(&a, &b, ConfidenceLevel::CL99) {
        Err(DimsError::DifferentProcExecs { key }) => assert_eq!(key, "bench/exec/"),
        other => panic!("unexpected: {:?}", other),
    }
    assert_eq!(
        diff(&a, &b, ConfidenceLevel::CL99).unwrap_err().to_string(),
        "different number of process executions for bench/exec/"
    );
}

#[test]
fn diff_of_a_mean_of_zero() {
    let a = file(&[("quick/e/", &[1, 2]), ("instant/e/", &[0, 0]), ("never/e/", &[0])]);
    let b = file(&[("quick/e/", &[1, 2]), ("instant/e/", &[0, 1]), ("never/e/", &[0])]);
    let report = diff(&a, &b, ConfidenceLevel::CL99).unwrap();
    assert_eq!(report.widths, Widths { mean: 1, ci: 1, ratio: 6 });
    let shown: Vec<(&str, &str, &str)> = report
        .rows
        .iter()
        .map(|row| (row.key.as_str(), row.ratio_text.as_str(), row.summary.as_str()))
        .collect();
    assert_eq!(
        shown,
        vec![
            ("quick/e/", "  1.00", "indistinguishable"),
            ("instant/e/", "   inf", "indistinguishable"),
            ("never/e/", "   NaN", "indistinguishable"),
        ]
    );
    // from nothing to something is a change beyond all numbers
    let c = file(&[("x/e/", &[0]), ("y/e/", &[4]), ("z/e/", &[0, 0])]);
    let d = file(&[("x/e/", &[5]), ("y/e/", &[400]), ("z/e/", &[7, 7])]);
    let report = diff(&c, &d, ConfidenceLevel::CL99).unwrap();
    let shown: Vec<(&str, &str, &str)> = report
        .rows
        .iter()
        .map(|row| (row.key.as_str(), row.ratio_text.as_str(), row.summary.as_str()))
        .collect();
    assert_eq!(
        shown,
        vec![
            ("y/e/", "100.00", "9900.00% slower"),
            ("x/e/", "   inf", "inf% slower"),
            ("z/e/", "   inf", "inf% slower"),
        ]
    );
    assert!(report.rows.iter().all(|row| row.significance == Significance::Slower));
    // a mean of zero in the second file is a change of -100 percent
    let report = diff(&d, &c, ConfidenceLevel::CL99).unwrap();
    assert_eq!(report.rows[0].key, "x/e/");
    assert_eq!(report.rows[0].summary, "100.00% faster");
    assert_eq!(report.rows[0].ratio_text, "0.00");
}

#[test]
fn rows_of_the_same_change_keep_the_order_of_their_keys() {
    let a = file(&[("c/e/", &[10]), ("a/e/", &[20]), ("b/e/", &[30]), ("d/e/", &[1])]);
    let b = file(&[("c/e/", &[20]), ("a/e/", &[40]), ("b/e/", &[60]), ("d/e/", &[1])]);
    let report = diff(&a, &b, ConfidenceLevel::CL90).unwrap();
    let keys: Vec<&str> = report.rows.iter().map(|row| row.key.as_str()).collect();
    assert_eq!(keys, vec!["c/e/", "a/e/", "b/e/", "d/e/"]);
}

#[test]
fn diff_of_empty_files() {
    let report = diff(&ResultFile::new(), &ResultFile::new(), ConfidenceLevel::CL95).unwrap();
    assert!(report.rows.is_empty());
    assert_eq!(report.widths, Widths { mean: 1, ci: 1, ratio: 4 });
}

#[test]
fn rows_that_tell_a_change_come_first_each_group_by_rising_change() {
    let a = file(&[
        ("noisy-up/e/", &[100, 200, 300]),
        ("slower/e/", &[100, 100, 100]),
        ("noisy-down/e/", &[100, 200, 300]),
        ("faster/e/", &[100, 100, 100]),
        ("much-slower/e/", &[100, 100, 100]),
        ("same/e/", &[50, 50, 50]),
    ]);
    let b = file(&[
        ("noisy-up/e/", &[110, 210, 310]),
        ("slower/e/", &[150, 150, 150]),
        ("noisy-down/e/", &[90, 190, 290]),
        ("faster/e/", &[50, 50, 50]),
        ("much-slower/e/", &[1000, 1000, 1000]),
        ("same/e/", &[50, 50, 50]),
    ]);
    let report = diff(&a, &b, ConfidenceLevel::CL95).unwrap();
    let keys: Vec<&str> = report.rows.iter().map(|row| row.key.as_str()).collect();
    assert_eq!(
        keys,
        vec!["faster/e/", "slower/e/", "much-slower/e/", "noisy-down/e/", "same/e/", "noisy-up/e/"]
    );
    let summaries: Vec<&str> = report.rows.iter().map(|row| row.summary.as_str()).collect();
    assert_eq!(
        summaries,
        vec![
            "50.00% faster",
            "50.00% slower",
            "900.00% slower",
            "indistinguishable",
            "indistinguishable",
            "indistinguishable"
        ]
    );
    for row in report.rows.iter() {
        assert_eq!(
            row.significance == Significance::Indistinguishable,
            row.before.ci_overlaps(&row.after)
        );
    }
    for pair in report.rows.windows(2) {
        assert!(stands_before(&pair[0], &pair[1]));
    }
    assert_eq!(report.widths, Widths { mean: 4, ci: 3, ratio: 5 });
    assert_eq!(report.rows[2].before_text, " 100 \u{b1}  0");
    assert_eq!(report.rows[2].after_text, "1000 \u{b1}  0");
    assert_eq!(report.rows[2].ratio_text, "10.00");
    assert_eq!(report.rows[0].ratio_text, " 0.50");
    assert_eq!(report.rows[3].before_text, " 200 \u{b1}113");
}

#[test]
fn a_row_is_indistinguishable_exactly_where_the_intervals_overlap() {
    let widths = Widths { mean: 1, ci: 1, ratio: 4 };
    let touching = make_row(
        "k".to_string(),
        SummaryStats::new(10_000_000, 5_000_000),
        SummaryStats::new(20_000_000, 5_000_000),
        &widths,
    );
    assert_eq!(touching.significance, Significance::Indistinguishable);
    assert_eq!(touching.summary, "indistinguishable");
    let apart = make_row(
        "k".to_string(),
        SummaryStats::new(10_000_000, 5_000_000),
        SummaryStats::new(20_000_001, 5_000_000),
        &widths,
    );
    assert_eq!(apart.significance, Significance::Slower);
    assert_eq!(apart.summary, "100.00% slower");
    assert_eq!(apart.ratio_text, "2.00");
}

#[test]
fn rounding_goes_to_the_nearest_and_ties_to_the_even() {
    let widths = Widths { mean: 1, ci: 1, ratio: 1 };
    let row = make_row(
        "k".to_string(),
        SummaryStats::new(8_000_000, 500_000),
        SummaryStats::new(9_000_000, 1_500_000),
        &widths,
    );
    // 9 / 8 = 1.125, and 12.5 percent
    assert_eq!(row.ratio_text, "1.12");
    assert_eq!(row.before_text, "8 \u{b1}0");
    assert_eq!(row.after_text, "9 \u{b1}2");
    let row = make_row(
        "k".to_string(),
        SummaryStats::new(8_000_000, 0),
        SummaryStats::new(9_080_000, 0),
        &widths,
    );
    // 1.135 goes up to the even 1.14
    assert_eq!(row.ratio_text, "1.14");
    assert_eq!(row.summary, "13.50% slower");
    let row = make_row(
        "k".to_string(),
        SummaryStats::new(1_499_999, 0),
        SummaryStats::new(2_500_001, 0),
        &widths,
    );
    assert_eq!(row.before_text, "1 \u{b1}0");
    assert_eq!(row.after_text, "3 \u{b1}0");
}

#[test]
fn a_small_change_keeps_its_direction() {
    let widths = Widths { mean: 1, ci: 1, ratio: 4 };
    let row = make_row(
        "k".to_string(),
        SummaryStats::new(100_000_000_000, 0),
        SummaryStats::new(99_999_999_999, 0),
        &widths,
    );
    assert_eq!(row.significance, Significance::Faster);
    assert_eq!(row.summary, "0.00% faster");
    assert_eq!(row.ratio_text, "1.00");
}

#[test]
fn width_of_a_column() {
    let texts = |items: &[&str]| items.iter().map(|s| s.to_string()).collect::<Vec<String>>();
    assert_eq!(compute_width(&texts(&[])), 1);
    assert_eq!(compute_width(&texts(&[""])), 1);
    assert_eq!(compute_width(&texts(&["0"])), 1);
    assert_eq!(compute_width(&texts(&["7", "12", "3"])), 2);
    assert_eq!(compute_width(&texts(&["999", "1000", "5"])), 4);
    assert_eq!(compute_width(&texts(&["\u{b1}\u{b1}", "a"])), 2);
}

#[test]
fn the_order_of_rows() {
    let widths = Widths { mean: 1, ci: 1, ratio: 4 };
    let row = |before: i64, after: i64, ci: u64| {
        make_row(
            "k".to_string(),
            SummaryStats::new(before, ci),
            SummaryStats::new(after, ci),
            &widths,
        )
    };
    let faster = row(4, 2, 0);
    let slower = row(2, 4, 0);
    let from_nothing = row(0, 4, 0);
    let lost = row(2, 3, 9);
    let lost_from_nothing = row(0, 3, 9);
    let nothing = row(0, 0, 0);
    let in_order = [&faster, &slower, &from_nothing, &lost, &lost_from_nothing, &nothing];
    for (i, a) in in_order.iter().enumerate() {
        for (j, b) in in_order.iter().enumerate() {
            assert_eq!(stands_before(a, b), i <= j, "{} before {}", i, j);
        }
    }
    assert!(stands_before(&row(1, 2, 0), &row(2, 4, 0)));
    assert!(stands_before(&row(2, 4, 0), &row(1, 2, 0)));
    assert!(stands_before(&row(i64::MAX, 1, 0), &row(1, i64::MAX, 0)));
    assert!(!stands_before(&row(1, i64::MAX, 0), &row(i64::MAX, 1, 0)));
}

use haste::confidence::ConfidenceLevel;
use haste::diff::diff;
use haste::results::ResultFile;
use haste::table::build_table;

fn file(entries: &[(&str, &[u32])]) -> ResultFile {
    let mut file = ResultFile::new();
    for (key, samples) in entries {
        for sample in samples.iter() {
            file.append(key, *sample);
        }
    }
    file
}

fn texts(row: &comfy_table::Row) -> Vec<String> {
    row.cell_iter().map(|cell| cell.content()).collect()
}

#[test]
fn table_of_a_report() {
    let a = file(&[("up/e/", &[100, 100, 100]), ("down/e/", &[100, 100, 100]), ("same/e/", &[7])]);
    let b = file(&[("up/e/", &[150, 150, 150]), ("down/e/", &[50, 50, 50]), ("same/e/", &[7])]);
    let report = diff(&a, &b, ConfidenceLevel::CL99).unwrap();
    let mut table = build_table(3, 12, &report.rows);
    assert_eq!(
        texts(table.header().unwrap()),
        vec!["Benchmark", "Datum3 (ms)", "Datum12 (ms)", "Ratio", "Summary"]
    );
    let rows: Vec<Vec<String>> = table.row_iter().map(texts).collect();
    assert_eq!(
        rows,
        vec![
            vec!["down/e/", "100 \u{b1}0", " 50 \u{b1}0", "0.50", "50.00% faster"],
            vec!["up/e/", "100 \u{b1}0", "150 \u{b1}0", "1.50", "50.00% slower"],
            vec!["same/e/", "  7 \u{b1}0", "  7 \u{b1}0", "1.00", "indistinguishable"],
        ]
    );
    assert_eq!(table.current_style_as_preset(), comfy_table::presets::NOTHING);
    table.force_no_tty();
    let lines: Vec<String> = table.lines().collect();
    assert_eq!(
        lines,
        vec![
            " Benchmark  Datum3 (ms)  Datum12 (ms)  Ratio  Summary           ",
            " down/e/         100 \u{b1}0         50 \u{b1}0   0.50  50.00% faster     ",
            " up/e/           100 \u{b1}0        150 \u{b1}0   1.50  50.00% slower     ",
            " same/e/           7 \u{b1}0          7 \u{b1}0   1.00  indistinguishable ",
        ]
    );
    table.enforce_styling();
    let lines: Vec<String> = table.lines().collect();
    assert!(!lines[0].contains("\u{1b}["));
    assert!(lines[1].contains("\u{1b}[38;5;10m"));
    assert!(lines[2].contains("\u{1b}[38;5;9m"));
    assert!(lines[3].contains("\u{1b}[38;5;13m"));
}

#[test]
fn table_of_an_empty_report() {
    let table = build_table(0, 1, &Vec::new());
    assert_eq!(table.row_count(), 0);
    assert_eq!(
        texts(table.header().unwrap()),
        vec!["Benchmark", "Datum0 (ms)", "Datum1 (ms)", "Ratio", "Summary"]
    );
}

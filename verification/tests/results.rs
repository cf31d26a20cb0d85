use haste::confidence::ConfidenceLevel;
use haste::results::{DimsError, ResultFile};
use haste::stats::SummaryStats;

fn file(entries: &[(&str, &[u32])]) -> ResultFile {
    let mut file = ResultFile::new();
    for (key, samples) in entries {
        for sample in samples.iter() {
            file.append(key, *sample);
        }
    }
    file
}

#[test]
fn new_file_is_empty() {
    let file = ResultFile::new();
    assert_eq!(file.len(), 0);
    assert!(file.get("bench/exec/").is_none());
    assert!(file.is_countable());
}

#[test]
fn append_keeps_the_order_of_samples_and_keys() {
    let mut file = ResultFile::new();
    file.append("b/e/", 3);
    file.append("a/e/", 4);
    file.append("b/e/", 5);
    assert_eq!(file.len(), 2);
    assert_eq!(file.key_at(0), "b/e/");
    assert_eq!(file.key_at(1), "a/e/");
    assert_eq!(file.samples_at(0), &vec![3, 5]);
    assert_eq!(file.samples_at(1), &vec![4]);
    assert_eq!(file.get("b/e/"), Some(&vec![3, 5]));
    assert_eq!(file.get("a/e/"), Some(&vec![4]));
    assert_eq!(file.get("c/e/"), None);
}

#[test]
fn same_dims_of_equal_shapes() {
    let a = file(&[("x/e/", &[1, 2, 3]), ("y/e/", &[4])]);
    let b = file(&[("y/e/", &[9]), ("x/e/", &[7, 8, 9])]);
    assert!(a.same_dims(&b).is_ok());
    assert!(b.same_dims(&a).is_ok());
    assert!(a.same_dims(&a).is_ok());
    assert!(ResultFile::new().same_dims(&ResultFile::new()).is_ok());
}

#[test]
fn same_dims_of_different_benchmarks() {
    let a = file(&[("x/e/", &[1, 2, 3])]);
    let b = file(&[("y/e/", &[1, 2, 3])]);
    let c = file(&[("x/e/", &[1, 2, 3]), ("y/e/", &[1, 2, 3])]);
    for (left, right) in [(&a, &b), (&b, &a), (&a, &c), (&c, &a), (&a, &ResultFile::new())] {
        match left.same_dims(right) {
            Err(DimsError::DifferentBenchmarks) => {}
            other => panic!("unexpected: {:?}", other),
        }
    }
    assert_eq!(
        a.same_dims(&b).unwrap_err().to_string(),
        "results files contain different benchmarks"
    );
}

#[test]
fn same_dims_of_different_numbers_of_process_executions() {
    let a = file(&[("x/e/", &[1, 2, 3]), ("y/e/", &[1, 2, 3]), ("z/e/", &[1])]);
    let b = file(&[("x/e/", &[1, 2, 3]), ("y/e/", &[1, 2]), ("z/e/", &[1, 2])]);
    match a.same_dims(&b) {
        Err(DimsError::DifferentProcExecs { key }) => assert_eq!(key, "y/e/"),
        other => panic!("unexpected: {:?}", other),
    }
    assert_eq!(
        a.same_dims(&b).unwrap_err().to_string(),
        "different number of process executions for y/e/"
    );
}

#[test]
fn different_benchmarks_are_told_before_different_counts() {
    let a = file(&[("x/e/", &[1, 2, 3]), ("y/e/", &[1])]);
    let b = file(&[("x/e/", &[1, 2]), ("w/e/", &[1])]);
    match a.same_dims(&b) {
        Err(DimsError::DifferentBenchmarks) => {}
        other => panic!("unexpected: {:?}", other),
    }
}

#[test]
fn summarise_every_key() {
    let a = file(&[("x/e/", &[100, 110, 120]), ("y/e/", &[5])]);
    let summaries = a.summarise(ConfidenceLevel::CL99);
    assert_eq!(summaries.len(), 2);
    assert_eq!(summaries.key_at(0), "x/e/");
    assert_eq!(summaries.key_at(1), "y/e/");
    assert_eq!(summaries.get("x/e/"), Some(&SummaryStats::new(110_000_000, 14_872_542)));
    assert_eq!(summaries.get("y/e/"), Some(&SummaryStats::new(5_000_000, 0)));
    assert_eq!(summaries.get("z/e/"), None);
    // the file is left as it was
    assert_eq!(a.get("x/e/"), Some(&vec![100, 110, 120]));
}

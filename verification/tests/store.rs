use haste::ids::{list_ids, next_id, parse_id};
use haste::key::BenchKey;
use haste::keymap::KeyMap;
use haste::messages::{comment_lines, confidence_line, created_line, header, list_line};
use haste::confidence::ConfidenceLevel;
use haste::store::{join_path, App, DEFAULT_CONFIG_FILE, DOT_DIR};
use haste::text::{
    clone_strings, decimal_string, join_strings, pad_left_string, round_half_even_u128,
    same_strings, same_text, two_decimals_string,
};

fn strings(items: &[&str]) -> Vec<String> {
    items.iter().map(|s| s.to_string()).collect()
}

#[test]
fn test_default_config_path() {
    // Create the app with no config specified
    let app = App::new("/tmp/haste_test_default", None);

    // Should use the default config file
    assert_eq!(app.config_file, DEFAULT_CONFIG_FILE);
    assert_eq!(app.state_dir, "/tmp/haste_test_default/.haste");
}

#[test]
fn app_with_a_config_file() {
    let app = App::new("/", Some("other.toml".to_string()));
    assert_eq!(app.config_file, "other.toml");
    assert_eq!(app.state_dir, "/.haste");
    assert_eq!(DOT_DIR, ".haste");
    assert_eq!(DEFAULT_CONFIG_FILE, "haste.toml");
}

#[test]
fn paths_of_a_datum() {
    let app = App::new("/work", None);
    assert_eq!(app.get_datum_dir(0), ".haste/0");
    assert_eq!(app.get_datum_dir(17), ".haste/17");
    assert_eq!(app.get_datum_results_path(17), ".haste/17/data.toml");
    assert_eq!(app.get_datum_extra_path(17), ".haste/17/extra.toml");
    assert_eq!(
        app.get_datum_dir(usize::MAX),
        format!(".haste/{}", usize::MAX)
    );
}

#[test]
fn joining_paths() {
    assert_eq!(join_path("a", "b"), "a/b");
    assert_eq!(join_path("a/", "b"), "a/b");
    assert_eq!(join_path("", "b"), "b");
    assert_eq!(join_path("a", "/b"), "/b");
    assert_eq!(join_path("a", ""), "a/");
    assert_eq!(join_path("", ""), "");
    assert_eq!(join_path("/", "x"), "/x");
}

#[test]
fn reading_datum_numbers() {
    assert_eq!(parse_id("0"), Some(0));
    assert_eq!(parse_id("7"), Some(7));
    assert_eq!(parse_id("007"), Some(7));
    assert_eq!(parse_id("+12"), Some(12));
    assert_eq!(parse_id("1234567890"), Some(1234567890));
    assert_eq!(parse_id(""), None);
    assert_eq!(parse_id("+"), None);
    assert_eq!(parse_id("-1"), None);
    assert_eq!(parse_id("++1"), None);
    assert_eq!(parse_id("1+"), None);
    assert_eq!(parse_id("12a"), None);
    assert_eq!(parse_id(" 1"), None);
    assert_eq!(parse_id("data.toml"), None);
    assert_eq!(parse_id("\u{663}"), None);
    assert_eq!(parse_id(&usize::MAX.to_string()), Some(usize::MAX));
    assert_eq!(parse_id(&format!("{}0", usize::MAX)), None);
    assert_eq!(parse_id("18446744073709551616"), "18446744073709551616".parse::<usize>().ok());
    assert_eq!(parse_id("99999999999999999999999999"), None);
}

#[test]
fn listing_datum_numbers() {
    assert_eq!(list_ids(&strings(&["2", "10", "notes", "0", "+3", "1"])), vec![0, 1, 2, 3, 10]);
    assert_eq!(list_ids(&strings(&["5", "5"])), vec![5, 5]);
    assert_eq!(list_ids(&strings(&[])), Vec::<usize>::new());
    assert_eq!(list_ids(&strings(&["x", ""])), Vec::<usize>::new());
}

#[test]
fn next_datum_number() {
    assert_eq!(next_id(&vec![]), Some(0));
    assert_eq!(next_id(&vec![0]), Some(1));
    assert_eq!(next_id(&vec![0, 1, 2]), Some(3));
    assert_eq!(next_id(&vec![4, 9, 2]), Some(10));
    assert_eq!(next_id(&vec![usize::MAX - 1]), Some(usize::MAX));
    assert_eq!(next_id(&vec![3, usize::MAX]), None);
}

#[test]
fn lines_of_the_commands() {
    let comment = "first try".to_string();
    assert_eq!(list_line(3, Some(&comment)), "  3: first try");
    assert_eq!(list_line(12, None), " 12: ");
    assert_eq!(list_line(1234, Some(&comment)), "1234: first try");
    assert_eq!(created_line(0, None), "haste: created datum 0 ");
    assert_eq!(created_line(7, Some(&comment)), "haste: created datum 7 first try");
    assert_eq!(
        header(1, 20),
        strings(&["Benchmark", "Datum1 (ms)", "Datum20 (ms)", "Ratio", "Summary"])
    );
    assert_eq!(comment_lines(1, None, 2, None), Vec::<String>::new());
    assert_eq!(
        comment_lines(1, Some(&comment), 2, None),
        strings(&["Datum1: first try", "Datum2: (no comment)"])
    );
    assert_eq!(
        comment_lines(1, None, 2, Some(&comment)),
        strings(&["Datum1: (no comment)", "Datum2: first try"])
    );
    assert_eq!(confidence_line(ConfidenceLevel::CL90), "confidence level: 90%");
    assert_eq!(confidence_line(ConfidenceLevel::CL99), "confidence level: 99%");
}

#[test]
fn text_of_a_key() {
    let key = BenchKey::new("bench".to_string(), "exec".to_string(), vec![]);
    assert_eq!(key.to_string(), "bench/exec/");
    let key = BenchKey::new("bench".to_string(), "exec".to_string(), strings(&["1"]));
    assert_eq!(key.to_string(), "bench/exec/1");
    let key = BenchKey::new("a/b".to_string(), "".to_string(), strings(&["1", "", "x-y"]));
    assert_eq!(key.to_string(), "a/b//1--x-y");
}

#[test]
fn equal_keys() {
    let key = BenchKey::new("bench".to_string(), "exec".to_string(), strings(&["1", "2"]));
    let swapped = BenchKey::new("bench".to_string(), "exec".to_string(), strings(&["2", "1"]));
    let other = BenchKey::new("bench".to_string(), "other".to_string(), strings(&["1", "2"]));
    let shorter = BenchKey::new("bench".to_string(), "exec".to_string(), strings(&["1"]));
    assert!(key.same(&key.clone()));
    assert_eq!(key, key.clone());
    assert!(!key.same(&swapped));
    assert!(!key.same(&other));
    assert!(!key.same(&shorter));
    assert_ne!(key, swapped);
}

#[test]
fn building_text() {
    assert_eq!(decimal_string(0), "0");
    assert_eq!(decimal_string(10), "10");
    assert_eq!(decimal_string(u128::MAX), u128::MAX.to_string());
    assert_eq!(pad_left_string(&"ab".to_string(), 4), "  ab");
    assert_eq!(pad_left_string(&"abcd".to_string(), 2), "abcd");
    assert_eq!(pad_left_string(&"\u{b1}".to_string(), 3), "  \u{b1}");
    assert_eq!(two_decimals_string(0), "0.00");
    assert_eq!(two_decimals_string(5), "0.05");
    assert_eq!(two_decimals_string(12345), "123.45");
    assert_eq!(join_strings(&strings(&[]), "-"), "");
    assert_eq!(join_strings(&strings(&["a"]), "-"), "a");
    assert_eq!(join_strings(&strings(&["a", "b", "c"]), ", "), "a, b, c");
    assert_eq!(clone_strings(&strings(&["a", "b"])), strings(&["a", "b"]));
    assert!(same_strings(&strings(&["a", "b"]), &strings(&["a", "b"])));
    assert!(!same_strings(&strings(&["a", "b"]), &strings(&["a"])));
    assert!(same_text("abc", "abc"));
    assert!(!same_text("abc", "abd"));
}

#[test]
fn rounding_to_the_nearest() {
    assert_eq!(round_half_even_u128(0, 3), 0);
    assert_eq!(round_half_even_u128(1, 3), 0);
    assert_eq!(round_half_even_u128(2, 3), 1);
    assert_eq!(round_half_even_u128(1, 2), 0);
    assert_eq!(round_half_even_u128(3, 2), 2);
    assert_eq!(round_half_even_u128(5, 2), 2);
    assert_eq!(round_half_even_u128(7, 2), 4);
    assert_eq!(round_half_even_u128(u128::MAX, 1), u128::MAX);
}

#[test]
fn a_map_that_keeps_the_order_of_its_keys() {
    let mut map: KeyMap<u32> = KeyMap::new();
    assert!(map.insert("b".to_string(), 1));
    assert!(map.insert("a".to_string(), 2));
    assert!(!map.insert("b".to_string(), 3));
    assert_eq!(map.len(), 2);
    assert_eq!(map.key_at(0), "b");
    assert_eq!(map.key_at(1), "a");
    assert_eq!(map.value_at(0), &3);
    assert_eq!(map.get("a"), Some(&2));
    assert_eq!(map.get("c"), None);
    assert_eq!(map.find("a"), Some(1));
    assert_eq!(map.find("c"), None);
    *map.value_mut(1) += 5;
    assert_eq!(map.get("a"), Some(&7));
    map.push("c".to_string(), 9);
    assert_eq!(map.find("c"), Some(2));
}

use relentless::destinations::Destinations;
use relentless::transpose::Transpose;

fn dest<T>(entries: Vec<(&str, T)>) -> Destinations<T> {
    let mut d = Destinations::new();
    for (k, v) in entries {
        d.insert(k.to_string(), v);
    }
    d
}

fn get<'a, T>(d: &'a Destinations<T>, k: &str) -> Option<&'a T> {
    d.get(k)
}

#[test]
fn transpose_variables_into_destinations() {
    let vars = dest(vec![
        ("x", dest(vec![("actual", "1".to_string()), ("expect", "2".to_string())])),
        ("y", dest(vec![("actual", "3".to_string())])),
    ]);
    let by_destination = vars.transpose();
    assert_eq!(by_destination.len(), 2);
    let actual = get(&by_destination, "actual").unwrap();
    assert_eq!(get(actual, "x").map(String::as_str), Some("1"));
    assert_eq!(get(actual, "y").map(String::as_str), Some("3"));
    let expect = get(&by_destination, "expect").unwrap();
    assert_eq!(get(expect, "x").map(String::as_str), Some("2"));
    assert_eq!(get(expect, "y"), None);
}

#[test]
fn transpose_twice_gives_back_the_values() {
    let vars = dest(vec![
        ("x", dest(vec![("actual", 1u32), ("expect", 2u32)])),
        ("y", dest(vec![("expect", 3u32)])),
        ("z", dest(vec![])),
    ]);
    let back = vars.transpose().transpose();
    assert_eq!(get(get(&back, "x").unwrap(), "actual"), Some(&1));
    assert_eq!(get(get(&back, "x").unwrap(), "expect"), Some(&2));
    assert_eq!(get(get(&back, "y").unwrap(), "expect"), Some(&3));
    assert_eq!(get(get(&back, "y").unwrap(), "actual"), None);
    // a variable bound at no destination is left out
    assert!(get(&back, "z").is_none());
}

#[test]
fn transpose_sequences_into_rows() {
    let d = dest(vec![("a", vec![1, 2]), ("b", vec![3]), ("c", vec![])]);
    let rows = d.transpose();
    assert_eq!(rows.len(), 2);
    assert_eq!(get(&rows[0], "a"), Some(&1));
    assert_eq!(get(&rows[0], "b"), Some(&3));
    assert_eq!(get(&rows[0], "c"), None);
    assert_eq!(get(&rows[1], "a"), Some(&2));
    assert_eq!(get(&rows[1], "b"), None);
}

#[test]
fn transpose_rows_into_sequences() {
    let rows = vec![dest(vec![("a", 1)]), dest(vec![("a", 2), ("b", 3)]), dest(vec![])];
    let d = rows.transpose();
    assert_eq!(d.len(), 2);
    assert_eq!(get(&d, "a"), Some(&vec![1, 2]));
    assert_eq!(get(&d, "b"), Some(&vec![3]));
}

#[test]
fn rows_then_columns_gives_back_the_sequences() {
    let d = dest(vec![("a", vec![1, 2, 3]), ("b", vec![4]), ("c", vec![])]);
    let back = d.transpose().transpose();
    assert_eq!(get(&back, "a"), Some(&vec![1, 2, 3]));
    assert_eq!(get(&back, "b"), Some(&vec![4]));
    assert_eq!(get(&back, "c"), None);
}

#[test]
fn transpose_empty() {
    let d: Destinations<Vec<u8>> = Destinations::new();
    assert!(d.transpose().is_empty());
    let rows: Vec<Destinations<u8>> = vec![];
    assert!(rows.transpose().is_empty());
}

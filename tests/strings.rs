use lush::strings::{endswith, split, startswith};

#[test]
fn test_split_keep_empty_true() {
    let sep = ",".to_string();

    // Basic case
    let res = split("a,b,c".to_string(), sep.clone(), Some(true));
    assert_eq!(res, vec!["a", "b", "c"]);

    // Consecutive delimiters
    let res = split("a,,b".to_string(), sep.clone(), Some(true));
    assert_eq!(res, vec!["a", "", "b"]);

    // Leading delimiter
    let res = split(",a,b".to_string(), sep.clone(), Some(true));
    assert_eq!(res, vec!["", "a", "b"]);

    // Trailing delimiter
    let res = split("a,b,".to_string(), sep.clone(), Some(true));
    assert_eq!(res, vec!["a", "b", ""]);

    // Only delimiters
    let res = split(",,,".to_string(), sep.clone(), Some(true));
    assert_eq!(res, vec!["", "", "", ""]);

    // No delimiter found
    let res = split("abc".to_string(), sep.clone(), Some(true));
    assert_eq!(res, vec!["abc"]);

    // Empty input
    let res = split("".to_string(), sep.clone(), Some(true));
    assert_eq!(res, vec![""]);
}

#[test]
fn test_split_keep_empty_false() {
    let sep = ",".to_string();

    // Basic case
    let res = split("a,b,c".to_string(), sep.clone(), Some(false));
    assert_eq!(res, vec!["a", "b", "c"]);

    // Consecutive delimiters
    let res = split("a,,b".to_string(), sep.clone(), Some(false));
    assert_eq!(res, vec!["a", "b"]);

    // Leading delimiter
    let res = split(",a,b".to_string(), sep.clone(), Some(false));
    assert_eq!(res, vec!["a", "b"]);

    // Trailing delimiter
    let res = split("a,b,".to_string(), sep.clone(), Some(false));
    assert_eq!(res, vec!["a", "b"]);

    // Only delimiters
    let res = split(",,,".to_string(), sep.clone(), Some(false));
    assert_eq!(res, Vec::<String>::new());

    // No delimiter found
    let res = split("abc".to_string(), sep.clone(), Some(false));
    assert_eq!(res, vec!["abc"]);

    // Empty input
    let res = split("".to_string(), sep.clone(), Some(false));
    assert_eq!(res, Vec::<String>::new());
}

#[test]
fn test_split_keep_empty_default() {
    let sep = ",".to_string();

    // When keep_empty is None, default is true
    let res = split("a,,b".to_string(), sep.clone(), None);
    assert_eq!(res, vec!["a", "", "b"]);
}

#[test]
fn test_startswith() {

    // Positive cases
    assert_eq!(startswith("hello world".to_string(), "hello".to_string()), true);
    assert_eq!(startswith("rustacean".to_string(), "rust".to_string()), true);

    // Negative cases
    assert_eq!(startswith("hello world".to_string(), "world".to_string()), false);
    assert_eq!(startswith("abc".to_string(), "abcd".to_string()), false);

    // Edge cases
    assert_eq!(startswith("".to_string(), "".to_string()), true);
    assert_eq!(startswith("hello".to_string(), "".to_string()), true);
    assert_eq!(startswith("".to_string(), "hello".to_string()), false);
}

#[test]
fn test_endswith() {

    // Positive cases
    assert_eq!(endswith("hello world".to_string(), "world".to_string()), true);
    assert_eq!(endswith("rustacean".to_string(), "cean".to_string()), true);

    // Negative cases
    assert_eq!(endswith("hello world".to_string(), "hello".to_string()), false);
    assert_eq!(endswith("abc".to_string(), "z".to_string()), false);

    // Edge cases
    assert_eq!(endswith("".to_string(), "".to_string()), true);
    assert_eq!(endswith("hello".to_string(), "".to_string()), true);
    assert_eq!(endswith("".to_string(), "hello".to_string()), false);
}

#[test]
fn split_with_longer_and_empty_separators() {
    assert_eq!(split("a--b----c".to_string(), "--".to_string(), Some(true)), vec!["a", "b", "", "c"]);
    assert_eq!(split("a---b".to_string(), "--".to_string(), Some(true)), vec!["a", "-b"]);
    assert_eq!(split("ab".to_string(), "".to_string(), Some(true)), vec!["", "a", "b", ""]);
    assert_eq!(split("ab".to_string(), "".to_string(), Some(false)), vec!["a", "b"]);
}

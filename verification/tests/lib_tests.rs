use alex_lib::euklid_gcd;
use alex_lib::lcm;
use alex_lib::lines_to_numbers;
use alex_lib::split_groups;
use alex_lib::split_lines;
use alex_lib::split_str;
use alex_lib::trim_str;
use regex::Regex;

#[test]
fn test_lines_to_numbers() {
    let input: Vec<String> = Vec::from([
        "2".to_string(),
        "12345678".to_string(),
        "    12345678".to_string(),
        "    87654321    ".to_string(),
        "42    ".to_string(),
    ]);
    assert_eq!(
        lines_to_numbers(&input),
        vec![2, 12345678, 12345678, 87654321, 42]
    );
}

#[test]
fn test_lines_to_numbers_signs_and_blanks() {
    let input: Vec<String> = Vec::from([
        "-5".to_string(),
        "   ".to_string(),
        "+3".to_string(),
        "".to_string(),
        "0".to_string(),
    ]);
    assert_eq!(lines_to_numbers(&input), vec![-5, 3, 0]);
}

#[test]
fn test_trim_str() {
    assert_eq!(trim_str("  hi\t "), "hi");
    assert_eq!(trim_str("hi"), "hi");
    assert_eq!(trim_str("   \t\n"), "");
    assert_eq!(trim_str(""), "");
}

#[test]
fn test_split_str_basic() {
    let parts = split_str("a,b,,c", ",");
    assert_eq!(
        parts,
        vec!["a".to_string(), "b".to_string(), "".to_string(), "c".to_string()]
    );
}

#[test]
fn test_split_str_multichar_and_edges() {
    assert_eq!(
        split_str("x--y--z", "--"),
        vec!["x".to_string(), "y".to_string(), "z".to_string()]
    );
    assert_eq!(split_str("x,", ","), vec!["x".to_string(), "".to_string()]);
    assert_eq!(split_str(",x", ","), vec!["".to_string(), "x".to_string()]);
    assert_eq!(split_str("plain", ","), vec!["plain".to_string()]);
}

#[test]
fn test_split_str_empty_separator() {
    assert_eq!(
        split_str("ab", ""),
        vec!["".to_string(), "a".to_string(), "b".to_string(), "".to_string()]
    );
}

#[test]
fn test_split_lines_filters_blank_lines() {
    let lines: Vec<String> = Vec::from([
        "a,b".to_string(),
        "   ".to_string(),
        "c".to_string(),
        "".to_string(),
    ]);
    let r = split_lines(&lines, ",");
    assert_eq!(
        r,
        vec![
            vec!["a".to_string(), "b".to_string()],
            vec!["c".to_string()],
        ]
    );
}

#[test]
fn test_split_groups_collects_matching_lines() {
    let re = Regex::new(r"(\d+)-(\d+)").unwrap();
    let lines: Vec<String> = Vec::from([
        "1-2".to_string(),
        "nope".to_string(),
        "30-40".to_string(),
    ]);
    let caps = split_groups(&lines, &re);
    assert_eq!(caps.len(), 2);
    assert_eq!(&caps[0][1], "1");
    assert_eq!(&caps[0][2], "2");
    assert_eq!(&caps[1][1], "30");
    assert_eq!(&caps[1][2], "40");
}

#[test]
fn test_euklid_gcd() {
    assert_eq!(euklid_gcd(48, 18), 6);
    assert_eq!(euklid_gcd(18, 48), 6);
    assert_eq!(euklid_gcd(0, 5), 5);
    assert_eq!(euklid_gcd(5, 0), 5);
    assert_eq!(euklid_gcd(7, 13), 1);
}

#[test]
fn test_lcm() {
    assert_eq!(lcm(4, 6), 12);
    assert_eq!(lcm(0, 5), 0);
    assert_eq!(lcm(21, 6), 42);
}

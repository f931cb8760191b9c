use del::ids::parse_ids;

fn check(s: &str, expected: Vec<u64>) {
    assert_eq!(parse_ids(s), expected, "input {s:?}");
}

#[test]
fn test_parse_ids() {
    check("0,5,6,70,", vec![0, 5, 6, 70_u64]);
    check("0,6,7-9", vec![0, 6, 7, 8, 9_u64]);
    check("0,,6-~8,", vec![0, 6, 7, 8_u64]);
    check("5_000_090,7,8", vec![5000090, 7, 8_u64]);
    check("-5", vec![0, 1, 2, 3, 4, 5_u64]);
}

#[test]
fn single_id_and_list() {
    check("3", vec![3]);
    check("2,5,9", vec![2, 5, 9]);
    check("", vec![]);
}

#[test]
fn tilde_and_dash_ranges() {
    check("2-5", vec![2, 3, 4, 5]);
    check("2~5", vec![2, 3, 4, 5]);
    check("1-3,7", vec![1, 2, 3, 7]);
    check("5-3", vec![]);
    check("4-4", vec![4]);
}

#[test]
fn other_characters_are_ignored() {
    check("1 , 2", vec![1, 2]);
    check("a1b,c2d", vec![1, 2]);
    check("id: 7.", vec![7]);
}

#[test]
fn open_range_end_is_dropped() {
    check("5-", vec![]);
    check("5-,6", vec![6]);
    check("-", vec![]);
    check(",,,", vec![]);
}

#[test]
fn overflowing_ids_are_dropped() {
    check("18446744073709551615", vec![u64::MAX]);
    check("18446744073709551616", vec![]);
    check("18446744073709551616,3", vec![3]);
    check("99999999999999999999-3", vec![]);
    check("18446744073709551614-18446744073709551615", vec![u64::MAX - 1, u64::MAX]);
    check("1-99999999999999999999", vec![]);
}

#[test]
fn repeated_dashes() {
    check("2--4", vec![2, 3, 4]);
    check("--3", vec![0, 1, 2, 3]);
    check("1-2-3", (1..=23).collect());
}

#[test]
fn a_comma_joins_two_lists() {
    for (a, b) in [("1-3", "7"), ("5", "-2"), ("x1", "2~4,"), ("5-", "3"), ("", "4")] {
        let mut joined = parse_ids(a);
        joined.extend(parse_ids(b));
        assert_eq!(parse_ids(&format!("{a},{b}")), joined, "{a:?} and {b:?}");
    }
}

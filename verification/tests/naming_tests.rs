use activity_archive::files::{
    cache_file_name, parse_year_file_name, select_latest_snapshot, snapshot_file_name,
};
use activity_archive::text::{int_to_string, str_le, trim_trailing_amp, uint_to_string};
use activity_archive::time::year_of_unix;

#[test]
fn years_follow_the_civil_calendar() {
    assert_eq!(year_of_unix(0), 1970);
    assert_eq!(year_of_unix(1704067199), 2023); // 2023-12-31T23:59:59Z
    assert_eq!(year_of_unix(1704067200), 2024); // 2024-01-01T00:00:00Z
    assert_eq!(year_of_unix(951782400), 2000); // 2000-02-29T00:00:00Z, leap day
    assert_eq!(year_of_unix(951868799), 2000); // end of that leap day
    assert_eq!(year_of_unix(4102444799), 2099); // 2099-12-31T23:59:59Z
    assert_eq!(year_of_unix(31535999), 1970); // last second of 1970
    assert_eq!(year_of_unix(31536000), 1971); // first second of 1971
}

#[test]
fn numbers_render_in_decimal() {
    assert_eq!(uint_to_string(0), "0");
    assert_eq!(uint_to_string(7), "7");
    assert_eq!(uint_to_string(907), "907");
    assert_eq!(uint_to_string(18446744073709551615), "18446744073709551615");
    assert_eq!(int_to_string(-45), "-45");
    assert_eq!(int_to_string(2024), "2024");
}

#[test]
fn snapshot_files_are_named_by_year() {
    assert_eq!(snapshot_file_name(2024), "2024.toml");
    assert_eq!(snapshot_file_name(0), "0.toml");
    assert_eq!(cache_file_name(17), "17.json");
}

#[test]
fn snapshot_file_names_round_trip() {
    assert_eq!(parse_year_file_name("2024.toml"), Some(2024));
    assert_eq!(parse_year_file_name(&snapshot_file_name(1999)), Some(1999));
    assert_eq!(parse_year_file_name("0.toml"), Some(0));
}

#[test]
fn other_file_names_are_rejected() {
    assert_eq!(parse_year_file_name("2024.json"), None);
    assert_eq!(parse_year_file_name("notes.toml"), None);
    assert_eq!(parse_year_file_name(".toml"), None);
    assert_eq!(parse_year_file_name("20x4.toml"), None);
    assert_eq!(parse_year_file_name("9999999999.toml"), None); // too many digits
    assert_eq!(parse_year_file_name(""), None);
}

#[test]
fn latest_snapshot_wins_by_year() {
    let names = vec![
        "readme.md".to_string(),
        "2022.toml".to_string(),
        "2024.toml".to_string(),
        "2023.toml".to_string(),
    ];
    assert_eq!(select_latest_snapshot(&names), Some((2, 2024)));

    let none = vec!["a.txt".to_string(), "b.json".to_string()];
    assert_eq!(select_latest_snapshot(&none), None);
    assert_eq!(select_latest_snapshot(&Vec::new()), None);
}

#[test]
fn string_order_is_lexicographic_by_code_point() {
    assert!(str_le("abc", "abd"));
    assert!(str_le("ab", "abc"));
    assert!(!str_le("abd", "abc"));
    assert!(str_le("", "a"));
    assert!(str_le("A", "a")); // 'A' < 'a'
    assert!(str_le("x", "x"));
}

#[test]
fn trailing_separators_are_trimmed() {
    assert_eq!(trim_trailing_amp("a=b&c=d&"), "a=b&c=d");
    assert_eq!(trim_trailing_amp("a&&&"), "a");
    assert_eq!(trim_trailing_amp(""), "");
    assert_eq!(trim_trailing_amp("&"), "");
    assert_eq!(trim_trailing_amp("plain"), "plain");
}

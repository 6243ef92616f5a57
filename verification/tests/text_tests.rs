use docker_records::text::count_string;
use docker_records::text::opt_bool_string;
use docker_records::text::str_le;

#[test]
fn count_string_exact_values() {
    assert_eq!(count_string(0), "0");
    assert_eq!(count_string(7), "7");
    assert_eq!(count_string(10), "10");
    assert_eq!(count_string(42), "42");
    assert_eq!(count_string(100), "100");
    assert_eq!(count_string(90210), "90210");
}

#[test]
fn opt_bool_string_values() {
    assert_eq!(opt_bool_string(&None), "N/A");
    assert_eq!(opt_bool_string(&Some(true)), "true");
    assert_eq!(opt_bool_string(&Some(false)), "false");
}

#[test]
fn str_le_ordering() {
    assert!(str_le("", ""));
    assert!(str_le("", "a"));
    assert!(!str_le("a", ""));
    assert!(str_le("a", "b"));
    assert!(!str_le("b", "a"));
    assert!(str_le("alpha", "zeta"));
    assert!(!str_le("zeta", "alpha"));
    assert!(str_le("abc", "abd"));
    assert!(str_le("ab", "abc"));
    assert!(!str_le("abc", "ab"));
    assert!(str_le("same", "same"));
}

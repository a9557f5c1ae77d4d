use textutils::ls::{format_mode, keep_entry_name};
use textutils::numbers::{parse_int, parse_positive_int, parse_u64, u64_string};
use textutils::wc::{count, format_field, FileInfo};

#[test]
fn test_parse_int() {
    // Parse a positive integer
    let res = parse_int("1");
    assert!(res.is_ok());
    assert_eq!(res.unwrap(), 1);

    // Parse a negative integer
    let res = parse_int("-1");
    assert!(res.is_ok());
    assert_eq!(res.unwrap(), -1);

    // Fail on a string
    let res = parse_int("foo");
    assert!(res.is_err());
    assert_eq!(res.unwrap_err().to_string(), "Invalid integer \"foo\"");
}

#[test]
fn parse_int_handles_bounds() {
    assert_eq!(parse_int(&i64::MAX.to_string()).unwrap(), i64::MAX);
    assert_eq!(parse_int(&i64::MIN.to_string()).unwrap(), i64::MIN);
    assert_eq!(parse_int("+7").unwrap(), 7);
    assert!(parse_int("9223372036854775808").is_err());
    assert!(parse_int("").is_err());
    assert!(parse_int("1 ").is_err());
}

#[test]
fn test_parse_u64() {
    let res = parse_u64("a");
    assert!(res.is_err());
    assert_eq!(res.unwrap_err().to_string(), "\"a\" not a valid integer");

    let res = parse_u64("0");
    assert!(res.is_ok());
    assert_eq!(res.unwrap(), 0);

    let res = parse_u64("4");
    assert!(res.is_ok());
    assert_eq!(res.unwrap(), 4);
}

#[test]
fn parse_positive_int_rejects_zero() {
    assert_eq!(parse_positive_int("3").unwrap(), 3usize);
    assert_eq!(parse_positive_int("+3").unwrap(), 3usize);
    let res = parse_positive_int("0");
    assert!(res.is_err());
    assert_eq!(res.unwrap_err(), "0");
    let res = parse_positive_int("foo");
    assert!(res.is_err());
    assert_eq!(res.unwrap_err(), "foo");
    let res = parse_positive_int("-1");
    assert!(res.is_err());
    assert_eq!(res.unwrap_err(), "-1");
}

#[test]
fn decimal_rendering() {
    assert_eq!(u64_string(0), "0");
    assert_eq!(u64_string(907), "907");
    assert_eq!(u64_string(u64::MAX), "18446744073709551615");
}

#[test]
fn test_count() {
    let text = "I don't want the world. I just want your half.\r\n";
    let lines: Vec<String> = vec![text.to_string()];
    let info = count(&lines);
    let expected = FileInfo { num_lines: 1, num_words: 10, num_bytes: 48, num_chars: 48 };
    assert_eq!(info, expected);
}

#[test]
fn count_multiple_lines() {
    let lines: Vec<String> = vec!["uno dos\n".to_string(), "tres\n".to_string(), "".to_string()];
    let info = count(&lines);
    assert_eq!(info.num_lines, 3);
    assert_eq!(info.num_words, 3);
    assert_eq!(info.num_bytes, 13);
    assert_eq!(info.num_chars, 13);
}

#[test]
fn count_is_character_aware() {
    // two characters, three bytes
    let lines: Vec<String> = vec!["á!".to_string()];
    let info = count(&lines);
    assert_eq!(info.num_chars, 2);
    assert_eq!(info.num_bytes, 3);
    assert_eq!(info.num_words, 1);
}

#[test]
fn test_format_field() {
    assert_eq!(format_field(1, false), "");
    assert_eq!(format_field(3, true), "       3");
    assert_eq!(format_field(10, true), "      10");
}

#[test]
fn hidden_names_are_skipped_unless_asked() {
    assert!(!keep_entry_name(".hidden", false));
    assert!(keep_entry_name(".hidden", true));
    assert!(keep_entry_name("plain.txt", false));
    assert!(keep_entry_name("", false));
}

#[test]
fn test_format_mode() {
    assert_eq!(format_mode(0o755), "rwxr-xr-x");
    assert_eq!(format_mode(0o644), "rw-r--r--");
    assert_eq!(format_mode(0o421), "r---w---x");
    assert_eq!(format_mode(0o777), "rwxrwxrwx");
}

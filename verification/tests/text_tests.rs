use rusql::numtext::check_real_literal;
use rusql::numtext::fmt_u64;
use rusql::numtext::fmt_usize;
use rusql::numtext::parse_bool;
use rusql::numtext::parse_i32;
use rusql::numtext::parse_i64;
use rusql::text::first_token;
use rusql::text::space_token;
use rusql::text::str_eq_ci;
use rusql::text::trim;

#[test]
fn parse_i64_exact_values() {
    assert_eq!(parse_i64("0"), Some(0));
    assert_eq!(parse_i64("42"), Some(42));
    assert_eq!(parse_i64("-17"), Some(-17));
    assert_eq!(parse_i64("+8"), Some(8));
    assert_eq!(parse_i64("9223372036854775807"), Some(i64::MAX));
    assert_eq!(parse_i64("-9223372036854775808"), Some(i64::MIN));
    assert_eq!(parse_i64("9223372036854775808"), None);
    assert_eq!(parse_i64(""), None);
    assert_eq!(parse_i64("-"), None);
    assert_eq!(parse_i64("12a"), None);
    assert_eq!(parse_i64("1.5"), None);
    assert_eq!(parse_i64("Null"), None);
}

#[test]
fn parse_i32_bounds() {
    assert_eq!(parse_i32("2147483647"), Some(i32::MAX));
    assert_eq!(parse_i32("-2147483648"), Some(i32::MIN));
    assert_eq!(parse_i32("2147483648"), None);
}

#[test]
fn parse_bool_exact() {
    assert_eq!(parse_bool("true"), Some(true));
    assert_eq!(parse_bool("false"), Some(false));
    assert_eq!(parse_bool("True"), None);
    assert_eq!(parse_bool(""), None);
}

#[test]
fn real_literals_recognized() {
    assert!(check_real_literal("999.99"));
    assert!(check_real_literal("-0.5"));
    assert!(check_real_literal(".5"));
    assert!(check_real_literal("3."));
    assert!(check_real_literal("1e5"));
    assert!(check_real_literal("2.5E-3"));
    assert!(check_real_literal("7"));
    assert!(!check_real_literal(""));
    assert!(!check_real_literal("."));
    assert!(!check_real_literal("1e"));
    assert!(!check_real_literal("abc"));
}

#[test]
fn decimal_formatting() {
    assert_eq!(fmt_u64(0), "0");
    assert_eq!(fmt_u64(7), "7");
    assert_eq!(fmt_u64(105), "105");
    assert_eq!(fmt_u64(18446744073709551615), "18446744073709551615");
    assert_eq!(fmt_usize(2), "2");
}

#[test]
fn trimming_and_tokens() {
    assert_eq!(trim("  list tables;  "), "list tables;");
    assert_eq!(trim(""), "");
    assert_eq!(trim(" \t\n"), "");
    assert_eq!(first_token("  .help me"), ".help");
    assert_eq!(first_token("   "), "");
    assert_eq!(space_token("insert into t"), "insert");
    assert_eq!(space_token(""), "");
}

#[test]
fn case_insensitive_comparison() {
    assert!(str_eq_ci("LIST TABLES;", "list tables;"));
    assert!(str_eq_ci("InTeGeR", "integer"));
    assert!(!str_eq_ci("integer", "integers"));
}

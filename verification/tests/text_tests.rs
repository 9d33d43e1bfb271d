use tg_harvest::text::{
    all_ascii_digits, chars_between, chars_of, contains_chars, decimal_i64, decimal_u64,
    digits_of, find_chars, find_digit_run_end, parse_i32, parse_i64, string_of,
};

fn s(v: &[char]) -> String {
    v.iter().collect()
}

#[test]
fn parse_i64_reads_numerals() {
    assert_eq!(parse_i64("42"), Some(42));
    assert_eq!(parse_i64("-7"), Some(-7));
    assert_eq!(parse_i64("+5"), Some(5));
    assert_eq!(parse_i64("007"), Some(7));
    assert_eq!(parse_i64("9223372036854775807"), Some(i64::MAX));
    assert_eq!(parse_i64("-9223372036854775808"), Some(i64::MIN));
}

#[test]
fn parse_i64_refuses_what_str_parse_refuses() {
    for bad in ["", "+", "-", "12a", " 1", "1 ", "--1", "+-1", "9223372036854775808", "channel"] {
        assert_eq!(parse_i64(bad), bad.parse::<i64>().ok(), "input {:?}", bad);
        assert_eq!(parse_i64(bad), None);
    }
}

#[test]
fn parse_i32_bounds() {
    assert_eq!(parse_i32("2147483647"), Some(i32::MAX));
    assert_eq!(parse_i32("2147483648"), None);
    assert_eq!(parse_i32("-2147483648"), Some(i32::MIN));
    assert_eq!(parse_i32("-2147483649"), None);
    assert_eq!(parse_i32("99999999999999999999999"), None);
}

#[test]
fn parse_agrees_with_std_on_samples() {
    for t in ["0", "-0", "+0", "123456", "-99", "1e3", "٣", "12_3", "2147483647", "4294967296"] {
        assert_eq!(parse_i32(t), t.parse::<i32>().ok(), "input {:?}", t);
        assert_eq!(parse_i64(t), t.parse::<i64>().ok(), "input {:?}", t);
    }
}

#[test]
fn decimal_formatting() {
    assert_eq!(s(&decimal_i64(0)), "0");
    assert_eq!(s(&decimal_i64(-42)), "-42");
    assert_eq!(s(&decimal_i64(i64::MIN)), i64::MIN.to_string());
    assert_eq!(s(&decimal_i64(i64::MAX)), i64::MAX.to_string());
    assert_eq!(s(&decimal_u64(u64::MAX)), u64::MAX.to_string());
    assert_eq!(s(&decimal_u64(1070)), "1070");
}

#[test]
fn decimal_reads_back() {
    for n in [0i64, 1, -1, 1234567, i64::MIN, i64::MAX] {
        assert_eq!(parse_i64(&s(&decimal_i64(n))), Some(n));
    }
}

#[test]
fn chars_and_strings_round_trip() {
    let v = chars_of("héllo ❤️");
    assert_eq!(v, "héllo ❤️".chars().collect::<Vec<char>>());
    assert_eq!(string_of(&v), "héllo ❤️");
}

#[test]
fn substring_search() {
    let h = chars_of("abcFLOOD_WAITx");
    assert_eq!(find_chars(&h, &chars_of("FLOOD")), Some(3));
    assert_eq!(find_chars(&h, &chars_of("zzz")), None);
    assert_eq!(find_chars(&h, &chars_of("")), Some(0));
    assert!(contains_chars(&h, &chars_of("WAITx")));
    assert!(!contains_chars(&chars_of("ab"), &chars_of("abc")));
}

#[test]
fn digit_runs() {
    let v = chars_of("code 420, value 31");
    assert_eq!(find_digit_run_end(&v, 5), 8);
    assert_eq!(s(&digits_of(&v)), "42031");
    assert_eq!(find_digit_run_end(&v, 16), 18);
    assert_eq!(find_digit_run_end(&v, 0), 0);
    assert_eq!(s(&chars_between(&v, 5, 8)), "420");
    assert!(all_ascii_digits("123"));
    assert!(all_ascii_digits(""));
    assert!(!all_ascii_digits("12a"));
    assert!(!all_ascii_digits("-12"));
}

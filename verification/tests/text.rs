use pingbot::text::{
    chars_of, contains_u64, join_strings, like_filter_exec, parse_u64, push_bool, push_dec, push_dec_i64,
    replace_str, str_eq, str_le_exec, utf8_len,
};

#[test]
fn decimal_notation() {
    let mut s = String::from("n=");
    push_dec(&mut s, 0);
    assert_eq!(s, "n=0");
    let mut s = String::new();
    push_dec(&mut s, 1234567890123);
    assert_eq!(s, "1234567890123");
    let mut s = String::new();
    push_dec_i64(&mut s, -42);
    assert_eq!(s, "-42");
    let mut s = String::new();
    push_dec_i64(&mut s, i64::MIN);
    assert_eq!(s, i64::MIN.to_string());
    let mut s = String::new();
    push_bool(&mut s, true);
    push_bool(&mut s, false);
    assert_eq!(s, "truefalse");
}

#[test]
fn decimal_round_trip() {
    for n in [0u64, 7, 10, 99, 100, 18446744073709551615] {
        let mut s = String::new();
        push_dec(&mut s, n as u128);
        assert_eq!(parse_u64(&s), Some(n));
    }
}

#[test]
fn parse_like_std() {
    for s in ["", "+", "-1", "12a", "18446744073709551616", " 1", "+12", "007", "0"] {
        assert_eq!(parse_u64(s), s.parse::<u64>().ok(), "{}", s);
    }
}

#[test]
fn string_order_and_equality() {
    assert!(str_eq("abc", "abc"));
    assert!(!str_eq("abc", "abd"));
    assert!(str_le_exec("abc", "abd"));
    assert!(str_le_exec("ab", "abc"));
    assert!(!str_le_exec("b", "abc"));
    assert!(str_le_exec("", ""));
    assert!(str_le_exec("Z", "a"));
}

#[test]
fn like_filter_matches_substrings_without_case() {
    assert!(like_filter_exec("Weekly Games", "games"));
    assert!(like_filter_exec("anything", ""));
    assert!(!like_filter_exec("games", "gamez"));
    assert!(like_filter_exec("a_b", "a_b"));
    assert!(like_filter_exec("axb", "a_b"));
    assert!(like_filter_exec("a long b", "a%b"));
}

#[test]
fn join_and_replace() {
    let parts = vec!["a".to_string(), "bc".to_string(), "".to_string()];
    assert_eq!(join_strings(&parts, ", "), "a, bc, ");
    assert_eq!(join_strings(&Vec::new(), ", "), "");
    assert_eq!(replace_str("hi {name}, {name}!", "{name}", "Bo"), "hi Bo, Bo!");
    assert_eq!(replace_str("aaa", "aa", "b"), "ba");
    assert_eq!(replace_str("none", "x", "y"), "none");
}

#[test]
fn byte_lengths() {
    assert_eq!(utf8_len(""), 0);
    assert_eq!(utf8_len("abc"), 3);
    assert_eq!(utf8_len("é"), 2);
    assert_eq!(utf8_len("€"), 3);
    assert_eq!(utf8_len("😀"), 4);
    let s = "mixé€😀";
    assert_eq!(utf8_len(s), s.len() as u128);
}

#[test]
fn chars_and_membership() {
    assert_eq!(chars_of("aé"), vec!['a', 'é']);
    assert!(contains_u64(&vec![1, 2, 3], 2));
    assert!(!contains_u64(&vec![1, 2, 3], 4));
    assert!(!contains_u64(&Vec::new(), 0));
}

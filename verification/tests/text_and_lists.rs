use gamecore::lists::{join_list, list_contains, list_with, list_without, split_list};
use gamecore::text::{
    chars_of, decimal_string, has_char, parse_u128, parse_u32, parse_u64, push_signed, same_text, string_of,
};

#[test]
fn decimal_spelling() {
    assert_eq!(decimal_string(0), "0");
    assert_eq!(decimal_string(7), "7");
    assert_eq!(decimal_string(1234567890), "1234567890");
    assert_eq!(decimal_string(u128::MAX), u128::MAX.to_string());
}

#[test]
fn signed_spelling() {
    let mut s = String::new();
    push_signed(&mut s, -42);
    assert_eq!(s, "-42");
    let mut t = String::new();
    push_signed(&mut t, i32::MIN);
    assert_eq!(t, i32::MIN.to_string());
    let mut u = String::new();
    push_signed(&mut u, 0);
    assert_eq!(u, "0");
}

#[test]
fn parse_like_std() {
    for text in ["0", "42", "+42", "", "+", "-1", "12a", "007", "18446744073709551615", "18446744073709551616", " 1"] {
        assert_eq!(parse_u64(text), text.parse::<u64>().ok(), "{:?}", text);
        assert_eq!(parse_u32(text), text.parse::<u32>().ok(), "{:?}", text);
        assert_eq!(parse_u128(text), text.parse::<u128>().ok(), "{:?}", text);
    }
    assert_eq!(parse_u32("4294967295"), Some(u32::MAX));
    assert_eq!(parse_u32("4294967296"), None);
    assert_eq!(parse_u128("340282366920938463463374607431768211455"), Some(u128::MAX));
    assert_eq!(parse_u128("340282366920938463463374607431768211456"), None);
}

#[test]
fn parse_reads_back_decimal() {
    for n in [0u64, 1, 9, 10, 99, 12345, u64::MAX] {
        assert_eq!(parse_u64(&decimal_string(n as u128)), Some(n));
    }
}

#[test]
fn char_helpers() {
    assert_eq!(chars_of("草空"), vec!['草', '空']);
    assert!(has_char("池空", '空'));
    assert!(!has_char("x|边|水", '空'));
    assert!(same_text("abc", "abc"));
    assert!(!same_text("abc", "abd"));
    assert!(!same_text("abc", "ab"));
    assert_eq!(string_of("边"), "边");
}

#[test]
fn split_like_std() {
    for text in ["", "a", "a,b", "a,,b", ",", "a,", ",a", "1,2,3"] {
        let expected: Vec<String> = text.split(',').map(|s| s.to_string()).collect();
        assert_eq!(split_list(text), expected, "{:?}", text);
        assert_eq!(join_list(&expected), text);
    }
}

#[test]
fn list_membership() {
    assert!(!list_contains("", ""));
    assert!(!list_contains("", "1"));
    assert!(list_contains("1,2,3", "2"));
    assert!(!list_contains("1,2,3", "4"));
    assert!(!list_contains("12,3", "1"));
    assert!(list_contains("1,,3", ""));
}

#[test]
fn list_adding() {
    assert_eq!(list_with("", "7"), Some("7".to_string()));
    assert_eq!(list_with("1,2", "7"), Some("1,2,7".to_string()));
    assert_eq!(list_with("1,7,2", "7"), None);
    let added = list_with("1,2", "7").unwrap();
    assert!(list_contains(&added, "7"));
    assert_eq!(list_with(&added, "7"), None);
}

#[test]
fn list_removing() {
    assert_eq!(list_without("1,2,3", "2"), Some("1,3".to_string()));
    assert_eq!(list_without("2", "2"), Some("".to_string()));
    assert_eq!(list_without("2,1,2", "2"), Some("1,2".to_string()));
    assert_eq!(list_without("1,3", "2"), None);
    assert_eq!(list_without("", "2"), None);
    assert_eq!(list_without("127.0.0.1:1,127.0.0.1:2", "127.0.0.1:2"), Some("127.0.0.1:1".to_string()));
}

#[test]
fn split_then_join_gives_the_pieces_back() {
    let pieces = vec!["a".to_string(), "".to_string(), "b:1".to_string()];
    let joined = join_list(&pieces);
    assert_eq!(joined, "a,,b:1");
    assert_eq!(split_list(&joined), pieces);
}

#[test]
fn removed_item_is_gone_from_a_list_without_repeats() {
    let removed = list_without("4,5,6", "5").unwrap();
    assert!(!list_contains(&removed, "5"));
    assert!(list_contains(&removed, "4") && list_contains(&removed, "6"));
    let repeated = list_without("5,4,5", "5").unwrap();
    assert!(list_contains(&repeated, "5"));
}

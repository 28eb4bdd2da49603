use std::cmp::Ordering;

use pacview::natural::{decimal_string, get_tokens, natural_cmp, thousands, Token};

#[test]
fn test_natural() {
    assert_eq!(natural_cmp("file2.txt", "file3.txt"), Ordering::Less);
    assert_eq!(natural_cmp("file2.txt", "file1.txt"), Ordering::Greater);
    assert_eq!(natural_cmp("file2.txt", "file10.txt"), Ordering::Less);
    assert_eq!(natural_cmp("file2.txt", "file10.t"), Ordering::Less);
    assert_eq!(natural_cmp("file2.t", "file10.txt"), Ordering::Less);
    assert_eq!(natural_cmp("file10.txt", "file2.txt"), Ordering::Greater);
    assert_eq!(natural_cmp("file10.txt", "file10.txt"), Ordering::Equal);

    assert_eq!(natural_cmp("1.1.1", "1.2.1"), Ordering::Less);
    assert_eq!(natural_cmp("1.1.2", "1.2.1"), Ordering::Less);
    assert_eq!(natural_cmp("2.1.1", "1.1.1"), Ordering::Greater);

    assert_eq!(natural_cmp("101551814", "317460852"), Ordering::Less);
    assert_eq!(natural_cmp("101551814", "10000564123"), Ordering::Less);
    assert_eq!(natural_cmp("101235555", "10406325"), Ordering::Greater);
    assert_eq!(natural_cmp("101235555", "8219"), Ordering::Greater);
}

#[test]
fn natural_item_numbers() {
    assert_eq!(natural_cmp("item2", "item10"), Ordering::Less);
    assert_eq!(natural_cmp("item10", "item2"), Ordering::Greater);
}

#[test]
fn natural_numbers_before_text() {
    assert_eq!(natural_cmp("1", "a"), Ordering::Less);
    assert_eq!(natural_cmp("a", "1"), Ordering::Greater);
}

#[test]
fn natural_prefix_first() {
    assert_eq!(natural_cmp("abc", "abc1"), Ordering::Less);
    assert_eq!(natural_cmp("", "a"), Ordering::Less);
    assert_eq!(natural_cmp("", ""), Ordering::Equal);
}

#[test]
fn natural_leading_zeros_compare_equal() {
    assert_eq!(natural_cmp("a01", "a1"), Ordering::Equal);
}

#[test]
fn natural_huge_number_is_text() {
    // 20 digits do not fit in 64 bits: the run compares as text, after any number.
    assert_eq!(natural_cmp("99999999999999999999", "5"), Ordering::Greater);
    let tokens = get_tokens("99999999999999999999");
    assert_eq!(tokens.len(), 1);
    assert!(matches!(tokens[0], Token::Text(_)));
}

#[test]
fn tokens_split_runs() {
    let tokens = get_tokens("file10.txt");
    assert_eq!(tokens.len(), 3);
    assert!(matches!(&tokens[0], Token::Text(t) if t.iter().collect::<String>() == "file"));
    assert!(matches!(tokens[1], Token::Number(10)));
    assert!(matches!(&tokens[2], Token::Text(t) if t.iter().collect::<String>() == ".txt"));
}

#[test]
fn thousands_groups_digits() {
    assert_eq!(thousands(0), "0");
    assert_eq!(thousands(999), "999");
    assert_eq!(thousands(1000), "1,000");
    assert_eq!(thousands(1234567), "1,234,567");
    assert_eq!(thousands(1000005), "1,000,005");
}

#[test]
fn decimal_numerals() {
    assert_eq!(decimal_string(0), "0");
    assert_eq!(decimal_string(42), "42");
    assert_eq!(decimal_string(100), "100");
}

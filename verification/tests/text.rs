use messenger::text::{
    bracketed_list, bracketed_numbers, decimal_string, push_decimal, push_escaped,
};

#[test]
fn decimal_of_zero_is_one_digit() {
    assert_eq!(decimal_string(0), "0");
}

#[test]
fn decimal_of_single_digits() {
    assert_eq!(decimal_string(7), "7");
    assert_eq!(decimal_string(9), "9");
}

#[test]
fn decimal_of_round_numbers_keeps_zeros() {
    assert_eq!(decimal_string(10), "10");
    assert_eq!(decimal_string(1000), "1000");
    assert_eq!(decimal_string(100_200), "100200");
}

#[test]
fn decimal_of_largest_number() {
    assert_eq!(decimal_string(u128::MAX), "340282366920938463463374607431768211455");
    assert_eq!(decimal_string(u128::MAX), u128::MAX.to_string());
}

#[test]
fn decimal_agrees_with_std_on_samples() {
    let samples: Vec<u128> = vec![1, 12, 123, 4_294_967_295, 1_700_000_000_000, 99_999, 100_000];
    for n in samples {
        assert_eq!(decimal_string(n), n.to_string());
    }
}

#[test]
fn push_decimal_appends_behind_what_is_there() {
    let mut s = "id=".to_string();
    push_decimal(&mut s, 42);
    assert_eq!(s, "id=42");
}

#[test]
fn bracketed_list_of_nothing() {
    let items: Vec<String> = Vec::new();
    assert_eq!(bracketed_list(&items), "[]");
}

#[test]
fn bracketed_list_of_one_has_no_comma() {
    let items = vec!["{\"a\":1}".to_string()];
    assert_eq!(bracketed_list(&items), "[{\"a\":1}]");
}

#[test]
fn bracketed_list_joins_with_commas() {
    let items = vec!["a".to_string(), "b".to_string(), "c".to_string()];
    assert_eq!(bracketed_list(&items), "[a,b,c]");
}

#[test]
fn bracketed_numbers_renders_each_in_decimal() {
    assert_eq!(bracketed_numbers(&vec![7, 0, 4_294_967_295]), "[7,0,4294967295]");
    assert_eq!(bracketed_numbers(&Vec::new()), "[]");
}

#[test]
fn escaping_appends_behind_what_is_there() {
    let mut s = "x=".to_string();
    push_escaped(&mut s, "a\"b");
    assert_eq!(s, "x=a\\\"b");
    push_escaped(&mut s, "");
    assert_eq!(s, "x=a\\\"b");
    push_escaped(&mut s, "\t");
    assert_eq!(s, "x=a\\\"b\\u0009");
}

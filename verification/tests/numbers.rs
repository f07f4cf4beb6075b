use code_assistant::decimal::decimal_string;

#[test]
fn decimal_of_small_and_large_numbers() {
    assert_eq!(decimal_string(0), "0");
    assert_eq!(decimal_string(7), "7");
    assert_eq!(decimal_string(10), "10");
    assert_eq!(decimal_string(100_000), "100000");
    assert_eq!(decimal_string(usize::MAX), usize::MAX.to_string());
}

use htmlmd::list::digits;

#[test]
fn test_count_digits() {
    assert_eq!(1, digits(1));
    assert_eq!(1, digits(0));
    assert_eq!(2, digits(45));
    assert_eq!(3, digits(450));
}

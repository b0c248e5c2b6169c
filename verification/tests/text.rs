use ftdaye::text::push_decimal;

#[test]
fn numbers_are_appended_in_decimal() {
    let mut out = String::from("n=");
    push_decimal(&mut out, 0);
    out.push(' ');
    push_decimal(&mut out, 4096);
    out.push(' ');
    push_decimal(&mut out, 1234567890);
    assert_eq!(out, "n=0 4096 1234567890");
}

#[test]
fn the_largest_number_is_appended() {
    let mut out = String::new();
    push_decimal(&mut out, usize::MAX);
    assert_eq!(out, usize::MAX.to_string());
}

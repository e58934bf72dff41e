use refaddr::hex::maybe_add_padding;

#[test]
fn odd_length_hex_gains_one_leading_zero() {
    assert_eq!(maybe_add_padding(String::from("f")), "0f");
    assert_eq!(maybe_add_padding(String::from("abc")), "0abc");
}

#[test]
fn even_length_hex_is_unchanged() {
    assert_eq!(maybe_add_padding(String::from("ff")), "ff");
    assert_eq!(maybe_add_padding(String::from("0abc")), "0abc");
}

#[test]
fn empty_hex_is_unchanged() {
    assert_eq!(maybe_add_padding(String::new()), "");
}

use streamrr::hexstring::hex;

#[test]
fn hex_renders_two_lowercase_digits_per_byte() {
    assert_eq!(hex(vec![0x00, 0x0f, 0xa5, 0xff]).to_string(), "000fa5ff");
}

#[test]
fn hex_of_nothing_is_empty() {
    assert_eq!(hex(Vec::new()).to_string(), "");
}

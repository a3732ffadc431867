use sempack::approx_tokens;

#[test]
fn empty_is_zero() {
    assert_eq!(approx_tokens(""), 0);
}

#[test]
fn scales_with_length() {
    assert!(approx_tokens("the quick brown fox") >= 4);
}

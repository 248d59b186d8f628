use rust_vanity::VanityResult;

#[test]
fn result_holds_what_it_was_given() {
    let result = VanityResult::new("ABCaddress".to_string(), "seedtext".to_string(), 17);
    assert_eq!(result.address(), "ABCaddress");
    assert_eq!(result.seed(), "seedtext");
    assert_eq!(result.attempts(), 17);
}

#[test]
fn result_accepts_empty_and_extreme_values() {
    let result = VanityResult::new(String::new(), String::new(), u64::MAX);
    assert_eq!(result.address(), "");
    assert_eq!(result.seed(), "");
    assert_eq!(result.attempts(), u64::MAX);
}

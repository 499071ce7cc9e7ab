use todo::priority::Priority;

fn expect_rejected(raw: &str) {
    match Priority::from_form_value(raw) {
        Ok(_) => panic!("expected {:?} to be rejected", raw),
        Err(e) => assert_eq!(e, raw),
    }
}

#[test]
fn values_one_to_five_parse() {
    assert_eq!(Priority::from_form_value("1").unwrap().get(), 1);
    assert_eq!(Priority::from_form_value("2").unwrap().get(), 2);
    assert_eq!(Priority::from_form_value("3").unwrap().get(), 3);
    assert_eq!(Priority::from_form_value("4").unwrap().get(), 4);
    assert_eq!(Priority::from_form_value("5").unwrap().get(), 5);
}

#[test]
fn out_of_range_and_non_numeric_fail() {
    expect_rejected("0");
    expect_rejected("6");
    expect_rejected("-1");
    expect_rejected("abc");
    expect_rejected("");
    expect_rejected("2.5");
}

#[test]
fn plus_sign_parses_like_the_standard_parser() {
    assert_eq!(Priority::from_form_value("+3").unwrap().get(), 3);
    expect_rejected("+");
}

#[test]
fn constructor_rejects_out_of_range_numbers() {
    assert!(Priority::new(0).is_none());
    assert_eq!(Priority::new(1).unwrap().get(), 1);
    assert_eq!(Priority::new(5).unwrap().get(), 5);
    assert!(Priority::new(6).is_none());
}

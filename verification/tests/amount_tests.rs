use transactions::{Amount, InvalidAmount};

fn text_of(s: &str) -> String {
    Amount::from_str(s).unwrap().to_text()
}

#[test]
fn parse_and_format_canonical() {
    assert_eq!(text_of("15.5301"), "15.5301");
    assert_eq!(text_of("5.5"), "5.5");
    assert_eq!(text_of("0"), "0");
    assert_eq!(text_of("100.5500"), "100.55");
    assert_eq!(text_of("11."), "11");
    assert_eq!(text_of("-3.5"), "-3.5");
    assert_eq!(text_of(".5"), "0.5");
    assert_eq!(text_of("007"), "7");
    assert_eq!(text_of("1.0000"), "1");
    assert_eq!(text_of("0.0001"), "0.0001");
}

#[test]
fn parse_rejects_malformed_text() {
    assert_eq!(Amount::from_str(""), Err(InvalidAmount));
    assert_eq!(Amount::from_str("-"), Err(InvalidAmount));
    assert_eq!(Amount::from_str("."), Err(InvalidAmount));
    assert_eq!(Amount::from_str("abc"), Err(InvalidAmount));
    assert_eq!(Amount::from_str("1.2.3"), Err(InvalidAmount));
    assert_eq!(Amount::from_str("5.12345"), Err(InvalidAmount));
    assert_eq!(Amount::from_str("1,0"), Err(InvalidAmount));
    assert_eq!(Amount::from_str("1 0"), Err(InvalidAmount));
    assert_eq!(Amount::from_str("--5"), Err(InvalidAmount));
    assert_eq!(Amount::from_str("5-"), Err(InvalidAmount));
}

#[test]
fn parse_rejects_out_of_range_values() {
    assert_eq!(Amount::from_str("922337203685477.5808"), Err(InvalidAmount));
    assert_eq!(Amount::from_str("99999999999999999999"), Err(InvalidAmount));
    assert!(Amount::from_str("922337203685477.5807").is_ok());
    assert!(Amount::from_str("-922337203685477.5808").is_ok());
    assert_eq!(Amount::from_str("-922337203685477.5809"), Err(InvalidAmount));
}

#[test]
fn exact_arithmetic() {
    let a = Amount::from_str("15.5301").unwrap();
    let b = Amount::from_str("5.52").unwrap();
    assert_eq!(a.checked_sub(b).unwrap(), Amount::from_str("10.0101").unwrap());
    assert_eq!(
        Amount::from_str("0.1").unwrap().checked_add(Amount::from_str("0.2").unwrap()).unwrap(),
        Amount::from_str("0.3").unwrap()
    );
    let top = Amount::const_from_int(922_337_203_685_477);
    assert!(top.checked_add(top).is_none());
    assert_eq!(Amount::const_from_int(2).to_text(), "2");
}

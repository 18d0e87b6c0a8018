use perl_xs::derive::error::Errors;
use perl_xs::error::{ToStructErr, ToStructErrPart};
use perl_xs::text::{push_decimal, push_joined, push_signed_decimal};

#[test]
fn no_error_checks_ok() {
    let errors = Errors::new();
    assert_eq!(errors.len(), 0);
    assert_eq!(errors.check(), Ok(()));
}

#[test]
fn one_error_is_reported_as_it_is() {
    let mut errors = Errors::new();
    errors.error("at least one key is required");
    assert_eq!(errors.len(), 1);
    assert_eq!(errors.check(), Err(String::from("at least one key is required")));
}

#[test]
fn several_errors_are_counted_and_listed() {
    let mut errors = Errors::new();
    errors.error("first");
    errors.error("second");
    assert_eq!(errors.check(), Err(String::from("2 errors:\n\t# first\n\t# second")));
    let mut many = Errors::new();
    for _ in 0..12 {
        many.error("x");
    }
    let report = many.check().unwrap_err();
    assert!(report.starts_with("12 errors:\n\t# x\n\t# x"));
    assert_eq!(report.len(), "12 errors:".len() + 12 * "\n\t# x".len());
}

#[test]
fn decimal_numerals() {
    let cases: [(u128, &str); 7] = [
        (0, "0"),
        (7, "7"),
        (10, "10"),
        (109, "109"),
        (9_876_543_210, "9876543210"),
        (u64::MAX as u128, "18446744073709551615"),
        (u128::MAX, "340282366920938463463374607431768211455"),
    ];
    for (n, expected) in cases {
        let mut s = String::from(">");
        push_decimal(&mut s, n);
        assert_eq!(s, format!(">{}", expected));
    }
}

#[test]
fn signed_decimal_numerals() {
    let cases: [(i64, &str); 6] = [
        (0, "0"),
        (-1, "-1"),
        (42, "42"),
        (-120, "-120"),
        (i64::MAX, "9223372036854775807"),
        (i64::MIN, "-9223372036854775808"),
    ];
    for (n, expected) in cases {
        let mut s = String::new();
        push_signed_decimal(&mut s, n);
        assert_eq!(s, expected);
    }
}

#[test]
fn joined_texts() {
    let mut s = String::from("[");
    push_joined(&mut s, &["a", "b", "c"], ", ");
    push_joined(&mut s, &[], ", ");
    push_joined(&mut s, &["]"], ", ");
    assert_eq!(s, "[a, b, c]");
}

#[test]
fn report_of_each_kind_of_part() {
    let err = ToStructErr {
        name: "Thing",
        errors: vec![
            ToStructErrPart::OmittedKey(&["only"]),
            ToStructErrPart::OmittedKey(&["-a", "-b"]),
            ToStructErrPart::OmittedKey(&[]),
            ToStructErrPart::OmittedValue("-a"),
            ToStructErrPart::KeyParseFail { offset: 4, ty: "String", error: String::from("bad key") },
            ToStructErrPart::KeyParseFail { offset: -3, ty: "String", error: String::from("worse") },
            ToStructErrPart::ValueParseFail { key: "-b", offset: 7, ty: "bool", error: String::from("bad value") },
        ],
    };
    assert_eq!(
        err.to_string(),
        "Failed to instantiate Thing\n\
         \tMissing field: only\n\
         \tMissing one of the following fields: -a, -b\n\
         \tMissing one of the following fields: \n\
         \tValue is required for: -a\n\
         \tFailed to parse key at offset 4 as String: bad key\n\
         \tFailed to parse key at offset -3 as String: worse\n\
         \tFailed to parse value of -b as bool: bad value\n"
    );
}

#[test]
fn report_without_parts_is_the_heading() {
    let err = ToStructErr { name: "Empty", errors: vec![] };
    assert_eq!(err.to_string(), "Failed to instantiate Empty\n");
}

use sked::pdf::error::ParseError;
use sked::pdf::Pdf;

#[test]
fn pdf_records_its_version() {
    assert_eq!(format!("{:?}", Pdf::new()), "Pdf { version: None }");
    assert_eq!(format!("{:?}", Pdf::new().version("1.5")), "Pdf { version: Some(\"1.5\") }");
}

#[test]
fn utf8_errors_convert_to_parse_errors() {
    let e = String::from_utf8(vec![0xff, 0xfe]).unwrap_err();
    assert!(matches!(ParseError::from(e), ParseError::Utf8(_)));
}

use jasmine::errors::{JasmineErr, JError};
use jasmine::trace;

#[test]
fn display_trace() {
    let input = "1+1;\r\n1;\n`a + 1;";

    assert_eq!(
        trace(&input, "", 12, "type"),
        ["--> 3:4", "", "`a + 1;", "   ^", "", "= type"].join("\n")
    );
}

#[test]
fn trace_with_path_and_first_line() {
    let input = "abc;\ndef;";
    assert_eq!(
        trace(&input, "query.jsm:", 1, "oops"),
        [
            "--> query.jsm:1:2",
            "",
            "abc;",
            " ^",
            "",
            "= oops"
        ]
        .join("\n")
    );
}

#[test]
fn trace_counts_characters_not_bytes() {
    // the first character is two bytes long; offset 3 lands on the third
    // character of the line
    let input = "\u{e9}+1;";
    assert_eq!(
        trace(&input, "", 3, "x"),
        ["--> 1:3", "", "\u{e9}+1;", "  ^", "", "= x"].join("\n")
    );
}

#[test]
fn error_messages() {
    assert_eq!(JError::Error("boom".to_string()).message(), "boom");
    assert_eq!(
        JError::ParserErr("bad".to_string()).message(),
        "Parser err: bad"
    );
    assert_eq!(
        JError::MismatchedTypeErr("j obj".to_string(), "7".to_string()).message(),
        "Failed to refer j obj from 7"
    );
    assert_eq!(
        JError::MismatchedLengthErr(3, 5).message(),
        "Length error '3' vs '5'"
    );
}

#[test]
fn parse_error_kind_is_observable() {
    let e = JasmineErr::from(JError::ParserErr("x".to_string()));
    assert!(e.is_parse_error());
    let e2 = JasmineErr::from(JError::Error("x".to_string()));
    assert!(!e2.is_parse_error());
    let e3 = JasmineErr::PythonError("host".to_string());
    assert!(!e3.is_parse_error());
}

use jasmine::classify::{classify, SeriesKind};

fn k(text: &str) -> SeriesKind {
    let v: Vec<char> = text.chars().collect();
    classify(&v)
}

#[test]
fn classify_booleans_and_ints() {
    assert_eq!(k("true"), SeriesKind::Bool);
    assert_eq!(k("false"), SeriesKind::Bool);
    assert_eq!(k("5u8"), SeriesKind::U8);
    assert_eq!(k("-5i8"), SeriesKind::I8);
    assert_eq!(k("5u16"), SeriesKind::U16);
    assert_eq!(k("5i16"), SeriesKind::I16);
    assert_eq!(k("5u32"), SeriesKind::U32);
    assert_eq!(k("-5i32"), SeriesKind::I32);
    assert_eq!(k("5u64"), SeriesKind::U64);
    assert_eq!(k("5"), SeriesKind::I64);
    assert_eq!(k("-5"), SeriesKind::I64);
    assert_eq!(k("5i64"), SeriesKind::I64);
}

#[test]
fn classify_decimals() {
    assert_eq!(k("1.5"), SeriesKind::F64);
    assert_eq!(k("-1.5"), SeriesKind::F64);
    assert_eq!(k("1."), SeriesKind::F64);
    assert_eq!(k(".5"), SeriesKind::F64);
    assert_eq!(k("1.5f64"), SeriesKind::F64);
    assert_eq!(k("1.5f32"), SeriesKind::F32);
    assert_eq!(k("f32"), SeriesKind::F32);
    // the empty lexeme matches the bare-decimal rule
    assert_eq!(k(""), SeriesKind::F64);
}

#[test]
fn classify_temporals() {
    assert_eq!(k("2020-01-01"), SeriesKind::Date);
    assert_eq!(k("12:34:56"), SeriesKind::Time);
    assert_eq!(k("12:34:56.123"), SeriesKind::Time);
    assert_eq!(k("2020-01-01T12:00:00"), SeriesKind::Datetime);
    assert_eq!(k("2020-01-01T"), SeriesKind::Datetime);
    assert_eq!(k("2020-01-01D12:00:00.5"), SeriesKind::Timestamp);
    assert_eq!(k("1D"), SeriesKind::Duration);
    assert_eq!(k("-1D12:00:00"), SeriesKind::Duration);
    assert_eq!(k("100ns"), SeriesKind::Duration);
    assert_eq!(k("-5h"), SeriesKind::Duration);
}

#[test]
fn classify_text_and_fallback() {
    assert_eq!(k("`a"), SeriesKind::Symbol);
    assert_eq!(k("`a`"), SeriesKind::Symbol);
    assert_eq!(k("\"abc\""), SeriesKind::Str);
    assert_eq!(k("none"), SeriesKind::Null);
    assert_eq!(k("abc"), SeriesKind::Null);
    assert_eq!(k("+"), SeriesKind::Null);
}

#[test]
fn classification_order_first_match_wins() {
    // a datetime with a four-digit fraction is no datetime lexeme, and no
    // earlier rule takes it either: it falls through to the timestamp rules
    // and beyond
    assert_eq!(k("2020-01-01T00:00:00.123"), SeriesKind::Datetime);
    assert_eq!(k("2020-01-01T00:00:00.1234"), SeriesKind::Null);
    // an integer-looking lexeme is an integer even though the decimal rule
    // would also accept it
    assert_eq!(k("42"), SeriesKind::I64);
}

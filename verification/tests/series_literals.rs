use jasmine::dec::Dec;
use jasmine::parse;
use jasmine::j::{SeriesData, J};
use jasmine::series::{series_from_elems, SeriesElem};
use jasmine::ast::AstNode;

fn elems(items: &[(&str, usize)]) -> Vec<SeriesElem> {
    items
        .iter()
        .map(|(t, s)| SeriesElem {
            text: t.to_string(),
            start: *s,
        })
        .collect()
}

#[test]
fn int_series_with_nulls() {
    let s = series_from_elems(&elems(&[("1", 0), ("none", 2), ("3", 7)])).unwrap();
    match s.data {
        SeriesData::I64(v) => assert_eq!(v, vec![Some(1), None, Some(3)]),
        _ => panic!("expected an i64 series"),
    }
}

#[test]
fn first_element_decides_the_kind() {
    // the first element is a u8 literal, so the bare 300 overflows
    let e = series_from_elems(&elems(&[("1u8", 0), ("300", 4)])).unwrap_err();
    assert_eq!(e.pos, 4);
    // with a bare first element the same texts make an i64 series
    let s = series_from_elems(&elems(&[("1", 0), ("300", 4)])).unwrap();
    match s.data {
        SeriesData::I64(v) => assert_eq!(v, vec![Some(1), Some(300)]),
        _ => panic!("expected an i64 series"),
    }
}

#[test]
fn later_bad_element_fails_at_its_own_span() {
    let e = series_from_elems(&elems(&[("1", 10), ("2", 20), ("`a", 30), ("4", 40)])).unwrap_err();
    assert_eq!(e.pos, 30);
}

#[test]
fn float_series_holds_exact_decimals() {
    let s = series_from_elems(&elems(&[("1.0", 0), ("2.5", 4), ("none", 9)])).unwrap();
    match s.data {
        SeriesData::F64(v) => {
            assert_eq!(
                v,
                vec![
                    Some(Dec { neg: false, mant: 1, exp10: 0 }),
                    Some(Dec { neg: false, mant: 25, exp10: -1 }),
                    None
                ]
            );
        }
        _ => panic!("expected an f64 series"),
    }
}

#[test]
fn symbol_series_strips_backticks() {
    let s = series_from_elems(&elems(&[("`a", 0), ("`bc`", 3)])).unwrap();
    match s.data {
        SeriesData::Symbol(v) => assert_eq!(v, vec!["a".to_string(), "bc".to_string()]),
        _ => panic!("expected a symbol series"),
    }
}

#[test]
fn bool_and_string_and_null_series() {
    let s = series_from_elems(&elems(&[("true", 0), ("none", 5), ("false", 10)])).unwrap();
    match s.data {
        SeriesData::Bool(v) => assert_eq!(v, vec![Some(true), None, Some(false)]),
        _ => panic!("expected a bool series"),
    }
    let s2 = series_from_elems(&elems(&[("\"x\"", 0), ("\"y z\"", 4)])).unwrap();
    match s2.data {
        SeriesData::Str(v) => assert_eq!(v, vec!["x".to_string(), "y z".to_string()]),
        _ => panic!("expected a string series"),
    }
    let s3 = series_from_elems(&elems(&[("what", 0), ("ever", 5)])).unwrap();
    match s3.data {
        SeriesData::Null(n) => assert_eq!(n, 2),
        _ => panic!("expected an all-null series"),
    }
}

#[test]
fn temporal_series_values() {
    let s = series_from_elems(&elems(&[("1970-01-02", 0), ("1970-01-03", 11)])).unwrap();
    match s.data {
        SeriesData::Date(v) => assert_eq!(v, vec![1, 2]),
        _ => panic!("expected a date series"),
    }
    let e = series_from_elems(&elems(&[("1970-01-02", 0), ("none", 11)])).unwrap_err();
    assert_eq!(e.pos, 11);
    let s2 = series_from_elems(&elems(&[("00:00:01", 0), ("00:01:00", 9)])).unwrap();
    match s2.data {
        SeriesData::Time(v) => assert_eq!(v, vec![1_000_000_000, 60_000_000_000]),
        _ => panic!("expected a time series"),
    }
}

#[test]
fn scalar_promotes_to_single_slot_series() {
    let s = J::I64(7).into_series().unwrap();
    assert_eq!(s.name, "");
    match &s.data {
        SeriesData::I64(v) => assert_eq!(v, &vec![Some(7)]),
        _ => panic!("expected an i64 series"),
    }
    assert!(J::MixedList(vec![]).into_series().is_err());
    let taken = J::Series(s).series().unwrap();
    assert_eq!(taken.len(), 1);
    assert!(J::I64(1).series().is_err());
}

#[test]
fn ast_narrowing_accessors() {
    let id = AstNode::Id {
        name: "x".to_string(),
        start: 3,
        source_id: 9,
    };
    assert_eq!(id.get_ast_type(), 7);
    let a = id.id().unwrap();
    assert_eq!(a.name, "x");
    assert_eq!(a.start, 3);
    assert_eq!(a.source_id, 9);
    assert!(id.op().is_err());
    assert!(id.skip().is_err());
    assert!(AstNode::Skip.skip().is_ok());
    let j = AstNode::J(J::I64(5)).as_j().unwrap();
    assert!(matches!(j, J::I64(5)));
    assert!(AstNode::Skip.as_j().is_err());
    assert_eq!(J::I64(1).get_type_name(), "i64");
    assert_eq!(J::Null.get_type_name(), "none");
    assert_eq!(J::Symbol("s".to_string()).get_type_name(), "sym");
    assert!(J::I64(1).is_numeric());
    assert!(!J::I64(1).is_bool());
    assert!(J::Boolean(true).is_bool());
}

#[test]
fn series_elements_split_on_whitespace_or_commas() {
    let ast = parse("[1 2 3]; [1,2,3]", 0).unwrap();
    assert_eq!(ast.len(), 2);
    for node in &ast {
        match node {
            AstNode::J(J::Series(s)) => match &s.data {
                SeriesData::I64(v) => assert_eq!(v, &vec![Some(1), Some(2), Some(3)]),
                _ => panic!("expected an i64 series"),
            },
            _ => panic!("expected a constant series"),
        }
    }
    // a negative element fuses its sign
    let ast2 = parse("[-1, 2]", 0).unwrap();
    match &ast2[0] {
        AstNode::J(J::Series(s)) => match &s.data {
            SeriesData::I64(v) => assert_eq!(v, &vec![Some(-1), Some(2)]),
            _ => panic!("expected an i64 series"),
        },
        _ => panic!("expected a constant series"),
    }
}

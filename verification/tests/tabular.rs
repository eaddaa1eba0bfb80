use jasmine::ast::AstNode;
use jasmine::dec::Dec;
use jasmine::j::{SeriesData, J};
use jasmine::parse;
use jasmine::render::render_literal;

#[test]
fn dataframe_folds_when_all_columns_are_constant() {
    let ast = parse("df[sym = [`a,`b], col1 = [1, 2], [1.0, 2.0]]", 0).unwrap();
    match &ast[0] {
        AstNode::J(J::DataFrame(df)) => {
            assert_eq!(df.columns.len(), 3);
            assert_eq!(df.columns[0].name, "sym");
            assert_eq!(df.columns[1].name, "col1");
            // the unnamed third column gets the zero-padded positional name
            assert_eq!(df.columns[2].name, "col02");
            match &df.columns[0].data {
                SeriesData::Symbol(v) => assert_eq!(v, &vec!["a".to_string(), "b".to_string()]),
                _ => panic!("expected a symbol column"),
            }
        }
        _ => panic!("expected a folded dataframe"),
    }
}

#[test]
fn dataframe_defers_on_any_dynamic_column() {
    let ast = parse("df[sym = [`a,`b], col1 = [1, 2], qty]", 0).unwrap();
    match &ast[0] {
        AstNode::Dataframe(cols) => {
            assert_eq!(cols.len(), 3);
            // constant columns are still folded and renamed inside
            match &cols[0] {
                AstNode::J(J::Series(s)) => assert_eq!(s.name, "sym"),
                _ => panic!("expected a folded column"),
            }
            // a bare identifier column keeps its own name
            match &cols[2] {
                AstNode::Series { name, exp } => {
                    assert_eq!(name, "qty");
                    assert!(matches!(exp.as_ref(), AstNode::Id { .. }));
                }
                _ => panic!("expected a deferred column"),
            }
        }
        _ => panic!("expected a deferred dataframe"),
    }
}

#[test]
fn dataframe_rejects_bad_shapes() {
    // duplicate column names, reported at the literal's offset
    let e = parse("df[a = [1], a = [2]]", 0).unwrap_err();
    assert_eq!(e.msg, "duplicate column name");
    assert_eq!(e.pos, 0);
    // mismatched column lengths
    let e2 = parse("x = df[[1], [1, 2]]", 0).unwrap_err();
    assert_eq!(e2.msg, "column lengths differ");
    assert_eq!(e2.pos, 4);
}

#[test]
fn matrix_folds_numeric_and_boolean_columns() {
    let ast = parse("m[[1, 2], [1.5, 2.5], [true, false]]", 0).unwrap();
    match &ast[0] {
        AstNode::J(J::Matrix(mx)) => {
            assert_eq!(mx.n_rows, 2);
            assert_eq!(mx.columns.len(), 3);
            assert_eq!(
                mx.columns[0],
                vec![
                    Dec { neg: false, mant: 1, exp10: 0 },
                    Dec { neg: false, mant: 2, exp10: 0 }
                ]
            );
            assert_eq!(
                mx.columns[1],
                vec![
                    Dec { neg: false, mant: 15, exp10: -1 },
                    Dec { neg: false, mant: 25, exp10: -1 }
                ]
            );
            assert_eq!(
                mx.columns[2],
                vec![
                    Dec { neg: false, mant: 1, exp10: 0 },
                    Dec { neg: false, mant: 0, exp10: 0 }
                ]
            );
        }
        _ => panic!("expected a folded matrix"),
    }
}

#[test]
fn matrix_rejects_non_numeric_column_naming_its_type() {
    let err = parse("m[[1, 2], [`a, `b]]", 0).unwrap_err();
    assert_eq!(err.msg, "Requires numeric data type, got 'sym'");
    // the error points at the offending column, not the series start
    assert_eq!(err.pos, 10);
    let err2 = parse("m[[\"x\"]]", 0).unwrap_err();
    assert_eq!(err2.msg, "Requires numeric data type, got 'str'");
    let err3 = parse("m[`a`]", 0).unwrap_err();
    assert_eq!(err3.msg, "Requires numeric data type, got 'sym'");
}

#[test]
fn matrix_defers_and_refuses_missing_values() {
    let ast = parse("m[[1, 2], col]", 0).unwrap();
    match &ast[0] {
        AstNode::Matrix(cols) => {
            assert_eq!(cols.len(), 2);
            match &cols[1] {
                AstNode::Series { name, .. } => assert_eq!(name, "col01"),
                _ => panic!("expected a deferred column"),
            }
        }
        _ => panic!("expected a deferred matrix"),
    }
    assert!(parse("m[[1, none]]", 0).is_err());
}

#[test]
fn literal_round_trip_reproduces_values() {
    // parsing, rendering and re-parsing reproduces the value, though not
    // necessarily the text
    for text in ["1b", "0b", "42", "-42", "1.50", "0.015", "2000.0", "`tick`", "\"quote\"", "none"]
    {
        let ast = parse(text, 0).unwrap();
        let j = match &ast[0] {
            AstNode::J(j) => j,
            _ => panic!("expected a literal"),
        };
        let rendered = render_literal(j).unwrap();
        let ast2 = parse(rendered.as_str(), 0).unwrap();
        match (&ast[0], &ast2[0]) {
            (AstNode::J(a), AstNode::J(b)) => match (a, b) {
                (J::Symbol(x), J::Symbol(y)) => assert_eq!(x, y),
                (J::Str(x), J::Str(y)) => assert_eq!(x, y),
                (J::Boolean(x), J::Boolean(y)) => assert_eq!(x, y),
                (J::I64(x), J::I64(y)) => assert_eq!(x, y),
                (J::F64(x), J::F64(y)) => assert_eq!(x, y),
                (J::Null, J::Null) => {}
                _ => panic!("round trip changed the value kind for {}", text),
            },
            _ => panic!("expected literals"),
        }
    }
    // distinct texts of the same value render to one canonical form
    let a = parse("1.50", 0).unwrap();
    let b = parse("1.5000", 0).unwrap();
    match (&a[0], &b[0]) {
        (AstNode::J(J::F64(x)), AstNode::J(J::F64(y))) => assert_eq!(x, y),
        _ => panic!("expected decimals"),
    }
}

#[test]
fn time_values_round_trip() {
    for text in ["00:00:00", "23:59:59", "12:30:00.000000001", "07:00:05.5"] {
        let ast = parse(text, 0).unwrap();
        let j = match &ast[0] {
            AstNode::J(j) => j,
            _ => panic!("expected a literal"),
        };
        let rendered = render_literal(j).unwrap();
        let ast2 = parse(rendered.as_str(), 0).unwrap();
        match (&ast[0], &ast2[0]) {
            (AstNode::J(J::Time(a)), AstNode::J(J::Time(b))) => assert_eq!(a, b),
            _ => panic!("round trip changed the value kind for {}", text),
        }
    }
    // the rendering is minimal: a zero fraction is dropped
    let ast = parse("01:02:03.000", 0).unwrap();
    let j = match &ast[0] {
        AstNode::J(j) => j,
        _ => panic!("expected a literal"),
    };
    assert_eq!(render_literal(j).unwrap(), "01:02:03");
}

#[test]
fn date_values_round_trip() {
    for text in [
        "1970-01-01",
        "2000-02-29",
        "0000-01-01",
        "9999-12-31",
        "1969-12-31",
        "2024-04-01",
    ] {
        let ast = parse(text, 0).unwrap();
        let j = match &ast[0] {
            AstNode::J(j) => j,
            _ => panic!("expected a literal"),
        };
        let rendered = render_literal(j).unwrap();
        assert_eq!(rendered, text);
        let ast2 = parse(rendered.as_str(), 0).unwrap();
        match (&ast[0], &ast2[0]) {
            (AstNode::J(J::Date(a)), AstNode::J(J::Date(b))) => assert_eq!(a, b),
            _ => panic!("round trip changed the value kind for {}", text),
        }
    }
}

use jasmine::ast::AstNode;
use jasmine::dec::Dec;
use jasmine::j::{SeriesData, J};
use jasmine::parse;
use jasmine::walker::{parse_exp, parse_with_depth};
use jasmine::syntax::{Rule, SyntaxNode};
use jasmine::render::render_literal;
use jasmine::errors::JError;

#[test]
fn parse_assignment_with_unary_and_binary() {
    // one top-level assignment whose value applies `sum` to the product of a
    // two-element float series and the integer 3
    let ast = parse("total = sum [1.0,2.0]*3", 0).unwrap();
    assert_eq!(ast.len(), 1);
    match &ast[0] {
        AstNode::Assign { id, exp } => {
            assert_eq!(id, "total");
            match exp.as_ref() {
                AstNode::UnaryOp { op, exp } => {
                    match op.as_ref() {
                        AstNode::Id { name, .. } => assert_eq!(name, "sum"),
                        _ => panic!("expected the identifier sum"),
                    }
                    match exp.as_ref() {
                        AstNode::BinOp { op, lhs, rhs } => {
                            match op.as_ref() {
                                AstNode::Op { name, .. } => assert_eq!(name, "*"),
                                _ => panic!("expected the operator"),
                            }
                            match lhs.as_ref() {
                                AstNode::J(J::Series(s)) => match &s.data {
                                    SeriesData::F64(v) => assert_eq!(
                                        v,
                                        &vec![
                                            Some(Dec { neg: false, mant: 1, exp10: 0 }),
                                            Some(Dec { neg: false, mant: 2, exp10: 0 })
                                        ]
                                    ),
                                    _ => panic!("expected a float series"),
                                },
                                _ => panic!("expected a constant series"),
                            }
                            match rhs.as_ref() {
                                AstNode::J(J::I64(3)) => {}
                                _ => panic!("expected the integer 3"),
                            }
                        }
                        _ => panic!("expected a binary application"),
                    }
                }
                _ => panic!("expected a unary application"),
            }
        }
        _ => panic!("expected an assignment"),
    }
}

#[test]
fn parse_sql_select() {
    let ast = parse(
        "from t filter {sym==`a`} group {sym} select { sum col1+col2, newCol = col2 }",
        0,
    )
    .unwrap();
    assert_eq!(ast.len(), 1);
    match &ast[0] {
        AstNode::Sql {
            op,
            from,
            filters,
            groups,
            ops,
            sorts,
            take,
            source_id,
            ..
        } => {
            assert_eq!(op, "select");
            assert_eq!(*source_id, 0);
            match from.as_ref() {
                AstNode::Id { name, .. } => assert_eq!(name, "t"),
                _ => panic!("expected the table identifier"),
            }
            assert_eq!(filters.len(), 1);
            assert!(matches!(&filters[0], AstNode::BinOp { .. }));
            assert_eq!(groups.len(), 1);
            assert_eq!(ops.len(), 2);
            assert!(matches!(&ops[0], AstNode::UnaryOp { .. }));
            match &ops[1] {
                AstNode::Series { name, exp } => {
                    assert_eq!(name, "newCol");
                    assert!(matches!(exp.as_ref(), AstNode::Id { .. }));
                }
                _ => panic!("expected a renamed projection"),
            }
            assert_eq!(sorts.len(), 0);
            assert!(matches!(take.as_ref(), AstNode::Skip));
        }
        _ => panic!("expected an SQL node"),
    }
}

#[test]
fn parse_sql_sort_take_delete() {
    let ast = parse(
        "from df filter {col!=1} sort {col1, -col2} take 10;\nfrom df delete {col1, col2};",
        0,
    )
    .unwrap();
    assert_eq!(ast.len(), 2);
    match &ast[0] {
        AstNode::Sql { op, sorts, take, filters, .. } => {
            assert_eq!(op, "select");
            assert_eq!(filters.len(), 1);
            assert_eq!(sorts.len(), 2);
            match &sorts[1] {
                AstNode::Id { name, .. } => assert_eq!(name, "-col2"),
                _ => panic!("expected a sort name"),
            }
            assert!(matches!(take.as_ref(), AstNode::J(J::I64(10))));
        }
        _ => panic!("expected an SQL node"),
    }
    match &ast[1] {
        AstNode::Sql { op, ops, .. } => {
            assert_eq!(op, "delete");
            assert_eq!(ops.len(), 2);
            assert!(matches!(&ops[0], AstNode::Id { .. }));
        }
        _ => panic!("expected an SQL node"),
    }
}

#[test]
fn parse_function_literal_and_calls() {
    let ast = parse("f = fn(x,y,z){x + y * z};\nr = f(1, 2, 3);\ng = f(1, , 9);\ng 3", 0).unwrap();
    assert_eq!(ast.len(), 4);
    match &ast[0] {
        AstNode::Assign { exp, .. } => match exp.as_ref() {
            AstNode::Fn {
                arg_names,
                stmts,
                fn_body,
                ..
            } => {
                assert_eq!(arg_names, &vec!["x".to_string(), "y".to_string(), "z".to_string()]);
                assert_eq!(stmts.len(), 1);
                assert_eq!(fn_body, "fn(x,y,z){x + y * z}");
            }
            _ => panic!("expected a function literal"),
        },
        _ => panic!("expected an assignment"),
    }
    match &ast[2] {
        AstNode::Assign { exp, .. } => match exp.as_ref() {
            AstNode::Call { args, .. } => {
                assert_eq!(args.len(), 3);
                assert!(matches!(&args[0], AstNode::J(J::I64(1))));
                assert!(matches!(&args[1], AstNode::Skip));
                assert!(matches!(&args[2], AstNode::J(J::I64(9))));
            }
            _ => panic!("expected a call"),
        },
        _ => panic!("expected an assignment"),
    }
    assert!(matches!(&ast[3], AstNode::UnaryOp { .. }));
}

#[test]
fn parse_indexed_assignment() {
    let ast = parse("d(`d`) = 9", 0).unwrap();
    assert_eq!(ast.len(), 1);
    match &ast[0] {
        AstNode::IndexAssign { id, indices, exp } => {
            assert_eq!(id, "d");
            assert_eq!(indices.len(), 1);
            match &indices[0] {
                AstNode::J(J::Symbol(s)) => assert_eq!(s, "d"),
                _ => panic!("expected a symbol index"),
            }
            assert!(matches!(exp.as_ref(), AstNode::J(J::I64(9))));
        }
        _ => panic!("expected an indexed assignment"),
    }
}

#[test]
fn parse_dict_list_and_control_flow() {
    let ast = parse("d = {a: 1, b: 2,};\nt = l[+, 1, 1];\nif(x>1){raise y;};\nwhile(x<3){x = x + 1};\ntry { a = 1; } catch(err) { err == \"type\"; }", 0).unwrap();
    assert_eq!(ast.len(), 5);
    match &ast[0] {
        AstNode::Assign { exp, .. } => match exp.as_ref() {
            AstNode::Dict { keys, values } => {
                assert_eq!(keys, &vec!["a".to_string(), "b".to_string()]);
                assert_eq!(values.len(), 2);
            }
            _ => panic!("expected a dict literal"),
        },
        _ => panic!("expected an assignment"),
    }
    match &ast[1] {
        AstNode::Assign { exp, .. } => match exp.as_ref() {
            AstNode::List(items) => {
                assert_eq!(items.len(), 3);
                match &items[0] {
                    AstNode::Op { name, .. } => assert_eq!(name, "+"),
                    _ => panic!("expected a bare operator element"),
                }
            }
            _ => panic!("expected a list literal"),
        },
        _ => panic!("expected an assignment"),
    }
    match &ast[2] {
        AstNode::If { stmts, .. } => {
            assert_eq!(stmts.len(), 1);
            assert!(matches!(&stmts[0], AstNode::Raise(_)));
        }
        _ => panic!("expected an if"),
    }
    assert!(matches!(&ast[3], AstNode::While { .. }));
    match &ast[4] {
        AstNode::Try { tries, catches } => {
            assert_eq!(tries.len(), 1);
            assert_eq!(catches.len(), 1);
        }
        _ => panic!("expected a try"),
    }
}

#[test]
fn parse_scalar_literals() {
    let ast = parse("1b; -5; 1.25; 2020-01-02; 12:00:00; 2020-01-01T00:00:00; 2020-01-01D00:00:00; 1D; `sym`; \"str\"; none", 0).unwrap();
    assert_eq!(ast.len(), 11);
    assert!(matches!(&ast[0], AstNode::J(J::Boolean(true))));
    assert!(matches!(&ast[1], AstNode::J(J::I64(-5))));
    match &ast[2] {
        AstNode::J(J::F64(d)) => assert_eq!(*d, Dec { neg: false, mant: 125, exp10: -2 }),
        _ => panic!("expected a decimal"),
    }
    assert!(matches!(&ast[3], AstNode::J(J::Date(18263))));
    assert!(matches!(&ast[4], AstNode::J(J::Time(43200000000000))));
    assert!(matches!(&ast[5], AstNode::J(J::Datetime(1577836800000))));
    assert!(matches!(
        &ast[6],
        AstNode::J(J::Timestamp(1577836800000000000))
    ));
    assert!(matches!(&ast[7], AstNode::J(J::Duration(86400000000000))));
    match &ast[8] {
        AstNode::J(J::Symbol(s)) => assert_eq!(s, "sym"),
        _ => panic!("expected a symbol"),
    }
    match &ast[9] {
        AstNode::J(J::Str(s)) => assert_eq!(s, "str"),
        _ => panic!("expected a string"),
    }
    assert!(matches!(&ast[10], AstNode::J(J::Null)));
}

#[test]
fn parse_fails_fast_with_positions() {
    // the bad series element is reported at its own offset
    let err = parse("x = [1, `a]", 0).unwrap_err();
    assert_eq!(err.pos, 8);
    // a grammar error stops the parse
    assert!(parse("1 +", 0).is_err());
    assert!(parse("\"unterminated", 0).is_err());
    // comments and empty statements parse cleanly
    let ast = parse("/* block */ 1; // line\n;;2", 0).unwrap();
    assert_eq!(ast.len(), 2);
}

#[test]
fn parse_depth_limit_fails_with_dedicated_error() {
    let err = parse_with_depth("((((1))))", 0, 3).unwrap_err();
    assert!(err.msg.contains("maximum nesting depth exceeded"));
    assert!(parse_with_depth("((((1))))", 0, 64).is_ok());
}

#[test]
fn narrowing_hands_node_parts_out() {
    let ast = parse("from t take 2", 0).unwrap();
    let sql = ast.into_iter().next().unwrap().sql().unwrap();
    assert_eq!(sql.op, "select");
    assert!(matches!(sql.from_df, AstNode::Id { .. }));
    assert!(matches!(sql.take, AstNode::J(J::I64(2))));
    assert_eq!(sql.filters.len(), 0);

    let ast2 = parse("x = 1 + 2", 0).unwrap();
    let assign = ast2.into_iter().next().unwrap().assign().unwrap();
    assert_eq!(assign.id, "x");
    let bin = assign.exp.bin_op().unwrap();
    assert!(matches!(bin.lhs, AstNode::J(J::I64(1))));
    assert!(matches!(bin.rhs, AstNode::J(J::I64(2))));
    assert!(bin.op.bin_op().is_err());

    let ast3 = parse("fn(a){a}", 0).unwrap();
    let f = ast3.into_iter().next().unwrap().fn_exp().unwrap();
    assert_eq!(f.arg_names, vec!["a".to_string()]);
    assert_eq!(f.stmts.len(), 1);
    assert_eq!(f.fn_body, "fn(a){a}");
}

#[test]
fn parse_named_binary_operator() {
    // a dot-prefixed name applies as a binary operator, losing the dot
    let ast = parse("1 .cross 2", 0).unwrap();
    match &ast[0] {
        AstNode::BinOp { op, .. } => match op.as_ref() {
            AstNode::Op { name, .. } => assert_eq!(name, "cross"),
            _ => panic!("expected an operator node"),
        },
        _ => panic!("expected a binary application"),
    }
}

#[test]
fn walker_accepts_hand_built_nodes() {
    let id = SyntaxNode {
        rule: Rule::Id,
        text: "x".to_string(),
        start: 5,
        children: vec![],
    };
    match parse_exp(&id, 3).unwrap() {
        AstNode::Id { name, start, source_id } => {
            assert_eq!(name, "x");
            assert_eq!(start, 5);
            assert_eq!(source_id, 3);
        }
        _ => panic!("expected an identifier"),
    }
    // a node of a non-expression rule is refused at its own offset
    let bad = SyntaxNode {
        rule: Rule::Params,
        text: String::new(),
        start: 9,
        children: vec![],
    };
    let e = parse_exp(&bad, 0).unwrap_err();
    assert_eq!(e.pos, 9);
}

#[test]
fn renderer_accepts_every_renderable_scalar() {
    assert!(render_literal(&J::Boolean(false)).is_ok());
    assert!(render_literal(&J::I64(i64::MIN)).is_ok());
    assert!(render_literal(&J::Null).is_ok());
    assert!(render_literal(&J::Date(-719528)).is_ok());
    assert!(render_literal(&J::Date(2932896)).is_ok());
    assert!(render_literal(&J::Time(86_399_999_999_999)).is_ok());
    assert!(render_literal(&J::F64(Dec { neg: true, mant: 5, exp10: -9999 })).is_ok());
    // out of range or holding a delimiter: refused
    assert!(render_literal(&J::Date(2932897)).is_err());
    assert!(render_literal(&J::Time(-1)).is_err());
    assert!(render_literal(&J::Symbol("a`b".to_string())).is_err());
    assert!(matches!(
        render_literal(&J::MixedList(vec![])),
        Err(JError::Error(_))
    ));
}

use elegua::ast::{Comparison, Expression, Number, Operator, Statement, Top, UnaryOperator};
use elegua::parser::{
    parse_expression, parse_program, parse_statement, parse_top, ParseError, StartMode,
};
use num_bigint::BigInt;

fn int_of(e: &Expression) -> BigInt {
    match e {
        Expression::Number { value: Number::Integer { value } } => value.clone(),
        other => panic!("expected integer literal, got {:?}", other),
    }
}

#[test]
fn expression_addition_of_two_integers() {
    let e = parse_expression("1+2").unwrap();
    match e {
        Expression::Boolop { a, op, b } => {
            assert_eq!(op, Operator::Add);
            assert_eq!(int_of(&a), BigInt::from(1u32));
            assert_eq!(int_of(&b), BigInt::from(2u32));
        }
        other => panic!("expected binary arithmetic expression, got {:?}", other),
    }
}

#[test]
fn expression_addition_of_large_integers() {
    let e = parse_expression("99999999999999999999999999+1").unwrap();
    match e {
        Expression::Boolop { a, op, b } => {
            assert_eq!(op, Operator::Add);
            assert_eq!(int_of(&a), "99999999999999999999999999".parse().unwrap());
            assert_eq!(int_of(&b), BigInt::from(1u32));
        }
        other => panic!("expected binary arithmetic expression, got {:?}", other),
    }
}

#[test]
fn expression_single_identifier() {
    let e = parse_expression("foo").unwrap();
    match e {
        Expression::Identifier { name } => assert_eq!(name, "foo"),
        other => panic!("expected identifier, got {:?}", other),
    }
}

#[test]
fn program_single_identifier_statement() {
    let prog = parse_program("x").unwrap();
    assert_eq!(prog.statements.len(), 1);
    match &prog.statements[0].node {
        Statement::Expression { expression } => {
            assert!(matches!(expression, Expression::Identifier { .. }));
        }
        other => panic!("expected expression statement, got {:?}", other),
    }
}

#[test]
fn lexical_error_fails_every_entry_point() {
    assert!(matches!(parse_program("\"abc"), Err(ParseError::Lexical { .. })));
    assert!(matches!(parse_statement("!"), Err(ParseError::Lexical { .. })));
    assert!(matches!(parse_expression("@"), Err(ParseError::Lexical { .. })));
}

#[test]
fn expression_single_integer() {
    let e = parse_expression("12345678901234567890").unwrap();
    assert_eq!(int_of(&e), "12345678901234567890".parse().unwrap());
}

#[test]
fn expression_precedence() {
    let e = parse_expression("1+2*3").unwrap();
    match e {
        Expression::Boolop { a, op, b } => {
            assert_eq!(op, Operator::Add);
            assert_eq!(int_of(&a), BigInt::from(1u32));
            match *b {
                Expression::Boolop { a: ba, op: bop, b: bb } => {
                    assert_eq!(bop, Operator::Mul);
                    assert_eq!(int_of(&ba), BigInt::from(2u32));
                    assert_eq!(int_of(&bb), BigInt::from(3u32));
                }
                other => panic!("expected product on the right, got {:?}", other),
            }
        }
        other => panic!("expected sum, got {:?}", other),
    }
}

#[test]
fn expression_power_is_right_associative() {
    let e = parse_expression("2**3**2").unwrap();
    match e {
        Expression::Boolop { a, op, b } => {
            assert_eq!(op, Operator::Pow);
            assert_eq!(int_of(&a), BigInt::from(2u32));
            assert!(matches!(*b, Expression::Boolop { op: Operator::Pow, .. }));
        }
        other => panic!("expected power, got {:?}", other),
    }
}

#[test]
fn expression_unary_minus() {
    let e = parse_expression("-1").unwrap();
    match e {
        Expression::Unop { op, a } => {
            assert_eq!(op, UnaryOperator::Neg);
            assert_eq!(int_of(&a), BigInt::from(1u32));
        }
        other => panic!("expected unary expression, got {:?}", other),
    }
}

#[test]
fn expression_comparison() {
    let e = parse_expression("1 < 2").unwrap();
    match e {
        Expression::Compare { a, op, b } => {
            assert_eq!(op, Comparison::Less);
            assert_eq!(int_of(&a), BigInt::from(1u32));
            assert_eq!(int_of(&b), BigInt::from(2u32));
        }
        other => panic!("expected comparison, got {:?}", other),
    }
}

#[test]
fn expression_parentheses_group() {
    let e = parse_expression("(1+2)*3").unwrap();
    match e {
        Expression::Boolop { a, op, b } => {
            assert_eq!(op, Operator::Mul);
            assert!(matches!(*a, Expression::Boolop { op: Operator::Add, .. }));
            assert_eq!(int_of(&b), BigInt::from(3u32));
        }
        other => panic!("expected product, got {:?}", other),
    }
}

#[test]
fn expression_call_with_arguments() {
    let e = parse_expression("f(1, x)").unwrap();
    match e {
        Expression::Call { function, args, keywords } => {
            assert!(matches!(*function, Expression::Identifier { .. }));
            assert_eq!(args.len(), 2);
            assert!(keywords.is_empty());
        }
        other => panic!("expected call, got {:?}", other),
    }
}

#[test]
fn expression_array_literal() {
    let e = parse_expression("[1, 2, 3]").unwrap();
    match e {
        Expression::Array { elements } => assert_eq!(elements.len(), 3),
        other => panic!("expected array, got {:?}", other),
    }
}

#[test]
fn expression_float_literal() {
    let e = parse_expression("1.5").unwrap();
    match e {
        Expression::Number { value: Number::Float { value } } => {
            let f: f64 = value.parse().unwrap();
            assert_eq!(f, 1.5);
        }
        other => panic!("expected float literal, got {:?}", other),
    }
}

#[test]
fn expression_newline_inside_brackets() {
    let e = parse_expression("[1,\n2]").unwrap();
    match e {
        Expression::Array { elements } => assert_eq!(elements.len(), 2),
        other => panic!("expected array, got {:?}", other),
    }
}

#[test]
fn expression_syntax_error() {
    assert!(matches!(parse_expression("1 +"), Err(ParseError::Syntax { .. })));
    assert!(matches!(parse_expression(""), Err(ParseError::Syntax { .. })));
}

#[test]
fn expression_lexical_error() {
    assert!(matches!(parse_expression("\"abc"), Err(ParseError::Lexical { .. })));
}

#[test]
fn statement_assignment() {
    let ls = parse_statement("x = 1").unwrap();
    match ls.node {
        Statement::Assign { targets, value } => {
            assert_eq!(targets.len(), 1);
            assert!(matches!(targets[0], Expression::Identifier { .. }));
            assert_eq!(int_of(&value), BigInt::from(1u32));
        }
        other => panic!("expected assignment, got {:?}", other),
    }
}

#[test]
fn statement_augmented_assignment() {
    let ls = parse_statement("x += 2").unwrap();
    match ls.node {
        Statement::AugAssign { target, op, value } => {
            assert!(matches!(*target, Expression::Identifier { .. }));
            assert_eq!(op, Operator::Add);
            assert_eq!(int_of(&value), BigInt::from(2u32));
        }
        other => panic!("expected augmented assignment, got {:?}", other),
    }
}

#[test]
fn statement_break_and_continue() {
    assert!(matches!(parse_statement("break").unwrap().node, Statement::Break));
    assert!(matches!(parse_statement("continue").unwrap().node, Statement::Continue));
}

#[test]
fn statement_return_values() {
    let ls = parse_statement("return 1, 2").unwrap();
    match ls.node {
        Statement::Return { value: Some(exprs) } => assert_eq!(exprs.len(), 2),
        other => panic!("expected return with values, got {:?}", other),
    }
    assert!(matches!(
        parse_statement("return").unwrap().node,
        Statement::Return { value: None }
    ));
}

#[test]
fn statement_global() {
    let ls = parse_statement("global a, b").unwrap();
    match ls.node {
        Statement::Global { names } => assert_eq!(names, vec!["a".to_string(), "b".to_string()]),
        other => panic!("expected global statement, got {:?}", other),
    }
}

#[test]
fn statement_import() {
    let ls = parse_statement("import m, n").unwrap();
    match ls.node {
        Statement::Import { import_parts } => {
            assert_eq!(import_parts.len(), 2);
            assert_eq!(import_parts[0].module, "m");
            assert!(import_parts[0].symbol.is_none());
        }
        other => panic!("expected import, got {:?}", other),
    }
}

#[test]
fn statement_from_import() {
    let ls = parse_statement("from m import s").unwrap();
    match ls.node {
        Statement::Import { import_parts } => {
            assert_eq!(import_parts.len(), 1);
            assert_eq!(import_parts[0].module, "m");
            assert_eq!(import_parts[0].symbol.as_deref(), Some("s"));
        }
        other => panic!("expected import, got {:?}", other),
    }
}

#[test]
fn statement_if_else() {
    let ls = parse_statement("if x do\ny = 1\nelse\ny = 2\nend").unwrap();
    match ls.node {
        Statement::If { test, body, orelse } => {
            assert!(matches!(test, Expression::Identifier { .. }));
            assert_eq!(body.len(), 1);
            assert_eq!(orelse.unwrap().len(), 1);
        }
        other => panic!("expected if statement, got {:?}", other),
    }
}

#[test]
fn statement_elif_chains() {
    let ls = parse_statement("if a do\nx = 1\nelif b do\nx = 2\nend").unwrap();
    match ls.node {
        Statement::If { orelse, .. } => {
            let nested = orelse.unwrap();
            assert_eq!(nested.len(), 1);
            assert!(matches!(nested[0].node, Statement::If { .. }));
        }
        other => panic!("expected if statement, got {:?}", other),
    }
}

#[test]
fn statement_while() {
    let ls = parse_statement("while x < 3 do\nx += 1\nend").unwrap();
    match ls.node {
        Statement::While { test, body, orelse } => {
            assert!(matches!(test, Expression::Compare { .. }));
            assert_eq!(body.len(), 1);
            assert!(orelse.is_none());
        }
        other => panic!("expected while statement, got {:?}", other),
    }
}

#[test]
fn statement_for() {
    let ls = parse_statement("for i in xs do\ny = i\nend").unwrap();
    match ls.node {
        Statement::For { target, iter, body, .. } => {
            assert!(matches!(target, Expression::Identifier { .. }));
            assert_eq!(iter.len(), 1);
            assert_eq!(body.len(), 1);
        }
        other => panic!("expected for statement, got {:?}", other),
    }
}

#[test]
fn statement_function_definition() {
    let ls = parse_statement("def f(a, b = 1) do\nreturn a\nend").unwrap();
    match ls.node {
        Statement::FunctionDef { name, args, body } => {
            assert_eq!(name, "f");
            assert_eq!(args.args, vec!["a".to_string(), "b".to_string()]);
            assert_eq!(args.defaults.len(), 1);
            assert_eq!(body.len(), 1);
        }
        other => panic!("expected function definition, got {:?}", other),
    }
}

#[test]
fn statement_class_definition() {
    let ls = parse_statement("class C do\nx = 1\nend").unwrap();
    match ls.node {
        Statement::ClassDef { name, body, keywords } => {
            assert_eq!(name, "C");
            assert_eq!(body.len(), 1);
            assert!(keywords.is_empty());
        }
        other => panic!("expected class definition, got {:?}", other),
    }
}

#[test]
fn statement_location_is_its_start() {
    let ls = parse_statement("x = 1").unwrap();
    assert_eq!(ls.location.get_row(), 1);
    assert_eq!(ls.location.get_column(), 1);
}

#[test]
fn program_statement_order_is_kept() {
    let prog = parse_program("x = 1\ny = 2\nbreak\n").unwrap();
    assert_eq!(prog.statements.len(), 3);
    assert!(matches!(prog.statements[0].node, Statement::Assign { .. }));
    assert!(matches!(prog.statements[1].node, Statement::Assign { .. }));
    assert!(matches!(prog.statements[2].node, Statement::Break));
    assert_eq!(prog.statements[1].location.get_row(), 2);
}

#[test]
fn program_empty_source() {
    let prog = parse_program("").unwrap();
    assert!(prog.statements.is_empty());
    let prog = parse_program("\n\n").unwrap();
    assert!(prog.statements.is_empty());
}

#[test]
fn start_modes_shape_results() {
    assert!(matches!(parse_top("x = 1", StartMode::Program).unwrap(), Top::Program(_)));
    assert!(matches!(parse_top("x = 1", StartMode::Statement).unwrap(), Top::Statement(_)));
    assert!(matches!(parse_top("1+2", StartMode::Expression).unwrap(), Top::Expression(_)));
}

#[test]
fn program_rejects_adjacent_statements() {
    assert!(matches!(parse_program("x = 1 y = 2"), Err(ParseError::Syntax { .. })));
}

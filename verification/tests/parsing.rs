use minilang::ast::{Expression, Statement};
use minilang::lexer::Lexer;
use minilang::parser::{Parser, Rule};
use minilang::token::{Class, Token};

fn parser(source: &str) -> Parser {
    Parser::init(Lexer::init("demo.src".to_string(), source.to_string())).unwrap()
}

fn is_token(t: &Token, class: Class, text: &str, line: usize, column: usize) -> bool {
    t.class == class && t.value == text && t.index == [line, column]
}

fn is_literal(e: &Expression, class: Class, text: &str, line: usize, column: usize) -> bool {
    match e {
        Expression::Literal { value } => is_token(value, class, text, line, column),
        _ => false,
    }
}

#[test]
fn parses_a_set_statement() {
    let mut p = parser("set x = 5;");
    let statements = p.scan_for_statements();
    assert!(p.reports.is_empty());
    assert_eq!(statements.len(), 1);
    match &statements[0] {
        Statement::SetAssign { name, value } => {
            assert!(is_token(name, Class::Identifier, "x", 1, 5));
            assert!(is_literal(value, Class::Number, "5", 1, 9));
        },
        other => panic!("not a set statement: {:?}", other),
    }
    assert_eq!(p.cur().class, Class::Eof);
}

#[test]
fn parses_a_var_statement() {
    let mut p = parser("var s = \"hi\";");
    let statements = p.scan_for_statements();
    assert!(p.reports.is_empty());
    assert_eq!(statements.len(), 1);
    match &statements[0] {
        Statement::VarAssign { name, value } => {
            assert!(is_token(name, Class::Identifier, "s", 1, 5));
            assert!(is_literal(value, Class::String, "hi", 1, 9));
        },
        other => panic!("not a var statement: {:?}", other),
    }
}

#[test]
fn parses_an_if_statement_over_literals() {
    let mut p = parser("if 1 == 2 [ set c = 1; ]");
    let statements = p.scan_for_statements();
    assert!(p.reports.is_empty());
    assert_eq!(statements.len(), 1);
    match &statements[0] {
        Statement::IfStatement { boolean, block } => {
            match boolean {
                Expression::BooleanExpr { lhs, rhs, operator } => {
                    assert!(is_literal(lhs, Class::Number, "1", 1, 4));
                    assert!(is_token(operator, Class::Comparator, "==", 1, 6));
                    assert!(is_literal(rhs, Class::Number, "2", 1, 9));
                },
                other => panic!("not a comparison: {:?}", other),
            }
            assert_eq!(block.len(), 1);
            match &block[0] {
                Statement::SetAssign { name, value } => {
                    assert!(is_token(name, Class::Identifier, "c", 1, 17));
                    assert!(is_literal(value, Class::Number, "1", 1, 21));
                },
                other => panic!("not a set statement: {:?}", other),
            }
        },
        other => panic!("not an if statement: {:?}", other),
    }
}

#[test]
fn parses_an_if_statement_over_calls() {
    let mut p = parser("if a() == b() [ set c = 1; ]");
    let statements = p.scan_for_statements();
    assert!(p.reports.is_empty());
    assert_eq!(statements.len(), 1);
    match &statements[0] {
        Statement::IfStatement { boolean, block } => {
            match boolean {
                Expression::BooleanExpr { lhs, rhs, operator } => {
                    assert!(matches!(&**lhs, Expression::FunCall { name, args }
                        if name.value == "a" && args.is_empty()));
                    assert_eq!(operator.value, "==");
                    assert!(matches!(&**rhs, Expression::FunCall { name, args }
                        if name.value == "b" && args.is_empty()));
                },
                other => panic!("not a comparison: {:?}", other),
            }
            assert_eq!(block.len(), 1);
            assert!(matches!(&block[0], Statement::SetAssign { name, .. } if name.value == "c"));
        },
        other => panic!("not an if statement: {:?}", other),
    }
}

#[test]
fn a_bare_name_is_no_expression() {
    let mut p = parser("if a == b [ set c = 1; ]");
    let statements = p.scan_for_statements();
    assert_eq!(statements.len(), 1);
    match &statements[0] {
        Statement::IfStatement { boolean, block } => {
            assert!(matches!(boolean, Expression::Null));
            assert!(matches!(block.last(), Some(Statement::SetAssign { name, .. })
                if name.value == "c"));
        },
        other => panic!("not an if statement: {:?}", other),
    }
    assert_eq!(p.reports.len(), 2);
    assert_eq!(p.reports[0].message, "expected '(' after identifier");
    assert_eq!(p.reports[0].rule, Rule::Call);
    assert_eq!(p.reports[0].slot, 1);
    assert_eq!(p.reports[1].message, "expected left-brace, got identifier");
    assert_eq!(p.cur().class, Class::Eof);
}

#[test]
fn parses_an_array() {
    let mut p = parser("[1, 2, 3]");
    let e = p.collect_expression(Rule::Array, 1);
    assert!(p.reports.is_empty());
    match &e {
        Expression::Array { value } => {
            assert_eq!(value.len(), 3);
            assert!(is_literal(&value[0], Class::Number, "1", 1, 2));
            assert!(is_literal(&value[1], Class::Number, "2", 1, 5));
            assert!(is_literal(&value[2], Class::Number, "3", 1, 8));
        },
        other => panic!("not an array: {:?}", other),
    }
    assert_eq!(p.cur().class, Class::Eof);
}

#[test]
fn array_without_comma_is_a_placeholder() {
    let mut p = parser("[1 2]");
    let e = p.collect_expression(Rule::Array, 1);
    assert!(matches!(e, Expression::Null));
    assert_eq!(p.reports.len(), 1);
    assert_eq!(
        p.reports[0].message,
        "expected ',' before another expression but found number"
    );
    assert_eq!(p.reports[0].token.value, "2");
    assert_eq!(p.reports[0].token.index, [1, 4]);
    assert_eq!(p.reports[0].rule, Rule::Array);
}

#[test]
fn array_cut_short_is_a_placeholder() {
    let mut p = parser("[1, 2");
    let e = p.collect_expression(Rule::Array, 1);
    assert!(matches!(e, Expression::Null));
    assert_eq!(p.reports.len(), 1);
    assert_eq!(p.reports[0].message, "expected ']' to finish array parsing but found '\\0'");
    assert_eq!(p.reports[0].token.class, Class::Eof);
}

#[test]
fn nested_arrays_and_calls() {
    let mut p = parser("f([1, [true]], g(), \"s\")");
    let e = p.collect_expression(Rule::Call, 0);
    assert!(p.reports.is_empty());
    match &e {
        Expression::FunCall { name, args } => {
            assert!(is_token(name, Class::Identifier, "f", 1, 1));
            assert_eq!(args.len(), 3);
            match &args[0] {
                Expression::Array { value } => {
                    assert_eq!(value.len(), 2);
                    assert!(matches!(&value[1], Expression::Array { value } if value.len() == 1));
                },
                other => panic!("not an array: {:?}", other),
            }
            assert!(matches!(&args[1], Expression::FunCall { name, args }
                if name.value == "g" && args.is_empty()));
            assert!(is_literal(&args[2], Class::String, "s", 1, 21));
        },
        other => panic!("not a call: {:?}", other),
    }
}

#[test]
fn arguments_cut_short_are_dropped() {
    let mut p = parser("f(1, 2");
    let e = p.collect_expression(Rule::Call, 0);
    assert!(matches!(&e, Expression::FunCall { name, args } if name.value == "f" && args.is_empty()));
    assert_eq!(p.reports.len(), 1);
    assert_eq!(p.reports[0].rule, Rule::Arguments);
}

#[test]
fn only_one_comparator_is_peeled_per_level() {
    let mut p = parser("1 < 2");
    let e = p.collect_expression(Rule::Comparison, 0);
    assert!(p.reports.is_empty());
    match &e {
        Expression::BooleanExpr { lhs, rhs, operator } => {
            assert!(is_literal(lhs, Class::Number, "1", 1, 1));
            assert!(is_token(operator, Class::Comparator, "<", 1, 3));
            assert!(is_literal(rhs, Class::Number, "2", 1, 5));
        },
        other => panic!("not a comparison: {:?}", other),
    }
}

#[test]
fn missing_expression_is_reported() {
    let mut p = parser("set x = ;");
    let statements = p.scan_for_statements();
    assert_eq!(statements.len(), 1);
    assert!(matches!(&statements[0], Statement::SetAssign { value: Expression::Null, .. }));
    assert_eq!(p.reports.len(), 1);
    assert_eq!(p.reports[0].message, "expected expression, found semi");
    assert_eq!(p.reports[0].rule, Rule::SetAssign);
    assert_eq!(p.reports[0].slot, 3);
}

#[test]
fn eat_takes_the_wrong_token_too() {
    let mut p = parser("set 5 = 1;");
    let statements = p.scan_for_statements();
    assert_eq!(statements.len(), 1);
    assert!(matches!(&statements[0], Statement::SetAssign { name, .. } if name.value == "5"));
    assert_eq!(p.reports.len(), 1);
    assert_eq!(p.reports[0].message, "expected identifier, got number");
    assert_eq!(p.reports[0].token.index, [1, 5]);
}

#[test]
fn other_tokens_give_the_empty_statement_in_silence() {
    let mut p = parser("; x");
    let statements = p.scan_for_statements();
    assert_eq!(statements.len(), 2);
    assert!(matches!(&statements[0], Statement::Void));
    assert!(matches!(&statements[1], Statement::Void));
    assert!(p.reports.is_empty());
    assert_eq!(p.cur().class, Class::Eof);
}

#[test]
fn unsupported_keyword_is_reported() {
    let mut p = parser("use io;");
    let statements = p.scan_for_statements();
    assert!(matches!(&statements[0], Statement::Void));
    assert_eq!(p.reports.len(), 1);
    assert_eq!(p.reports[0].message, "unsupported construct 'use'");
    assert_eq!(p.reports[0].token.index, [1, 1]);
    assert_eq!((p.reports[0].rule, p.reports[0].slot), (Rule::UsePackage, 0));
    let mut q = parser("fun yeild");
    let _ = q.scan_for_statements();
    assert_eq!(q.reports.len(), 2);
    assert_eq!((q.reports[0].rule, q.reports[0].slot), (Rule::FunDef, 0));
    assert_eq!((q.reports[1].rule, q.reports[1].slot), (Rule::FunDef, 6));
    assert_eq!(q.reports[1].message, "unsupported construct 'yeild'");
    assert_eq!(p.cur().class, Class::Eof);
}

#[test]
fn block_cut_short_keeps_its_statements() {
    let mut p = parser("if true [ set a = 1; ");
    let statements = p.scan_for_statements();
    assert_eq!(statements.len(), 1);
    match &statements[0] {
        Statement::IfStatement { boolean, block } => {
            assert!(is_literal(boolean, Class::Boolean, "true", 1, 4));
            assert_eq!(block.len(), 1);
        },
        other => panic!("not an if statement: {:?}", other),
    }
    assert_eq!(p.reports.len(), 1);
    assert_eq!(
        p.reports[0].message,
        "unexpected end-of-file, wanted ']' for closing code block"
    );
}

#[test]
fn lookahead_is_clamped_to_the_sentinel() {
    let p = parser("set x");
    assert_eq!(p.nth(0).value, "set");
    assert_eq!(p.nth(1).value, "x");
    assert_eq!(p.nth(2).class, Class::Eof);
    assert_eq!(p.nth(200).class, Class::Eof);
    assert_eq!(p.nth(-1).class, Class::Eof);
    assert_eq!(p.nth(isize::MIN).class, Class::Eof);
    assert_eq!(p.nth(isize::MAX).class, Class::Eof);
}

#[test]
fn cursor_never_passes_the_sentinel() {
    let mut p = parser("x");
    p.next();
    p.next();
    p.next();
    assert_eq!(p.index, 1);
    let t = p.eat(Class::Semi, Rule::SetAssign, 4);
    assert_eq!(t.class, Class::Eof);
    assert_eq!(p.index, 1);
    assert_eq!(p.reports.len(), 1);
    assert_eq!(p.reports[0].message, "expected semi, got eof");
}

#[test]
fn parser_init_passes_the_fatal_reports_on() {
    let r = Parser::init(Lexer::init("demo.src".to_string(), "set x = \"".to_string()));
    match r {
        Err(reports) => assert_eq!(reports.len(), 1),
        Ok(_) => panic!("an open string was accepted"),
    }
}

#[test]
fn parser_keeps_the_lexical_reports() {
    let p = parser("set x = 1..2;");
    assert_eq!(p.lexical.len(), 1);
    assert_eq!(p.filename, "demo.src");
}

#[test]
fn parse_reads_a_whole_text() {
    let p = minilang::parser::parse("demo.src".to_string(), "set x = 5;\nvar y = [x(), 2];".to_string())
        .unwrap();
    assert!(p.lexical.is_empty());
    assert!(p.syntactic.is_empty());
    assert_eq!(p.statements.len(), 2);
    assert!(matches!(&p.statements[0], Statement::SetAssign { name, value: Expression::Literal { value } }
        if name.value == "x" && value.value == "5"));
    match &p.statements[1] {
        Statement::VarAssign { name, value: Expression::Array { value } } => {
            assert!(is_token(name, Class::Identifier, "y", 2, 5));
            assert_eq!(value.len(), 2);
            assert!(matches!(&value[0], Expression::FunCall { name, args }
                if name.value == "x" && args.is_empty()));
            assert!(is_literal(&value[1], Class::Number, "2", 2, 15));
        },
        other => panic!("not a var statement over an array: {:?}", other),
    }
}

#[test]
fn parse_gives_up_on_an_open_string() {
    let r = minilang::parser::parse("demo.src".to_string(), "set x = \"abc".to_string());
    match r {
        Err(reports) => {
            assert_eq!(reports.len(), 1);
            assert_eq!(
                reports[0].render("demo.src"),
                "error[L03]: Unterminated string or comment  demo.src[1:13]"
            );
        },
        Ok(_) => panic!("an open string was accepted"),
    }
}

#[test]
fn parse_is_a_function_of_the_text() {
    let text = "if f(1, [2, 3]) != \"s\" [ set a = 1; x ; var b = ; ] use q; set";
    let a = minilang::parser::parse("demo.src".to_string(), text.to_string()).unwrap();
    let b = minilang::parser::parse("demo.src".to_string(), text.to_string()).unwrap();
    assert_eq!(format!("{:?}", a), format!("{:?}", b));
    assert!(!a.syntactic.is_empty());
}

#[test]
fn comparison_chain_peels_one_level_only() {
    let mut p = parser("1 == 2 == 3");
    let e = p.collect_expression(Rule::IfStatement, 1);
    assert!(p.reports.is_empty());
    match &e {
        Expression::BooleanExpr { lhs, rhs, operator } => {
            assert!(is_literal(lhs, Class::Number, "1", 1, 1));
            assert!(is_token(operator, Class::Comparator, "==", 1, 3));
            assert!(is_literal(rhs, Class::Number, "2", 1, 6));
        },
        other => panic!("not a comparison: {:?}", other),
    }
    assert_eq!(p.index, 3);
    assert!(is_token(&p.cur(), Class::Comparator, "==", 1, 8));
}

#[test]
fn comparison_chain_fails_on_structure() {
    let mut p = parser("set x = 1 == 2 == 3;");
    let statements = p.scan_for_statements();
    match &statements[0] {
        Statement::SetAssign { name, value: Expression::BooleanExpr { lhs, rhs, operator } } => {
            assert_eq!(name.value, "x");
            assert!(is_literal(lhs, Class::Number, "1", 1, 9));
            assert_eq!(operator.value, "==");
            assert!(is_literal(rhs, Class::Number, "2", 1, 14));
        },
        other => panic!("not a set statement over a comparison: {:?}", other),
    }
    assert_eq!(p.reports.len(), 1);
    assert_eq!(p.reports[0].message, "expected semi, got comparator");
    assert_eq!(p.reports[0].token.index, [1, 16]);
    assert_eq!(p.cur().class, Class::Eof);
}

#[test]
fn primary_leaves_a_comparator_under_the_cursor() {
    let mut p = parser("f(1) < 2");
    let e = p.collect_primary(Rule::Comparison, 2);
    assert!(matches!(&e, Expression::FunCall { name, args } if name.value == "f" && args.len() == 1));
    assert!(is_token(&p.cur(), Class::Comparator, "<", 1, 6));
    assert!(p.reports.is_empty());
}

#[test]
fn arguments_without_comma_are_dropped() {
    let mut p = parser("f(1 2)");
    let e = p.collect_expression(Rule::Call, 0);
    assert!(matches!(&e, Expression::FunCall { name, args } if name.value == "f" && args.is_empty()));
    assert_eq!(p.reports.len(), 1);
    assert_eq!(
        p.reports[0].message,
        "expected ',' before another expression but found number"
    );
    assert_eq!(p.reports[0].rule, Rule::Arguments);
    assert_eq!(p.reports[0].slot, 1);
}

#[test]
fn area_names_file_and_place() {
    let mut p = parser("set x");
    p.next();
    assert_eq!(p.area(), "\x1b[4mdemo.src\x1b[1m[1:5]\x1b[0m\x1b[0m");
}

#[test]
fn commas_may_lead_and_trail() {
    let mut p = parser("[, 1, , 2, ]");
    let e = p.collect_expression(Rule::Array, 1);
    assert!(p.reports.is_empty());
    assert!(matches!(&e, Expression::Array { value } if value.len() == 2));
}

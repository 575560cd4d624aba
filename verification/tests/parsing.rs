use entropyc::ast::{BinaryExpr, BinaryOp, Expression, Statement};
use entropyc::parser::{
    expression_parser, let_parser, number_parser, print_parser, program_parser, statement_parser,
};

fn chars(s: &str) -> usize {
    s.chars().count()
}

#[test]
fn parses_minimal_program() {
    let prog = program_parser("Program ns nm [ ]").expect("parse");
    assert_eq!(prog.namespace, "ns");
    assert_eq!(prog.name, "nm");
    assert!(prog.body.is_empty());
}

#[test]
fn rejects_leading_whitespace() {
    assert!(program_parser(" Program ns nm [ ]").is_err());
}

#[test]
fn rejects_keyword_run_together() {
    assert!(program_parser("Programns nm [ ]").is_err());
}

#[test]
fn accepts_trailing_whitespace() {
    assert!(program_parser("Program ns nm [ ]  \n\t ").is_ok());
}

#[test]
fn rejects_trailing_garbage() {
    assert!(program_parser("Program ns nm [ ] x").is_err());
}

#[test]
fn rejects_trailing_single_char() {
    let good = "Program ns nm [ print 1; ]";
    assert!(program_parser(good).is_ok());
    let mut bad = String::from(good);
    bad.push('?');
    assert!(program_parser(&bad).is_err());
}

#[test]
fn rejects_chained_comparison() {
    assert!(program_parser("Program ns nm [ print 1 < 2 < 3; ]").is_err());
}

#[test]
fn accepts_single_comparison() {
    assert!(program_parser("Program ns nm [ print 1 < 2; ]").is_ok());
}

#[test]
fn rejects_missing_semicolon() {
    assert!(program_parser("Program ns nm [ print 1 ]").is_err());
}

#[test]
fn rejects_unclosed_bracket() {
    assert!(program_parser("Program ns nm [ print 1;").is_err());
}

#[test]
fn rejects_let_run_together() {
    assert!(program_parser("Program ns nm [ letx = 5; ]").is_err());
}

#[test]
fn print_matches_as_bare_prefix() {
    // `print` is not a delimited keyword: `printx;` reads as printing the
    // variable `x`.
    let prog = program_parser("Program ns nm [ printx; ]").expect("parse");
    assert_eq!(
        prog.body[0],
        Statement::Print(Expression::Variable(String::from("x")))
    );
}

#[test]
fn number_token_forms() {
    let s = "12.5ex";
    let r = number_parser(s, chars(s), 0).expect("number");
    assert_eq!(r.0, "12.5");
    assert_eq!(r.1, 4);

    let s = "-07";
    let r = number_parser(s, chars(s), 0).expect("number");
    assert_eq!(r.0, "-07");

    let s = "3e+10;";
    let r = number_parser(s, chars(s), 0).expect("number");
    assert_eq!(r.0, "3e+10");

    let s = "4E2 ";
    let r = number_parser(s, chars(s), 0).expect("number");
    assert_eq!(r.0, "4E2");

    assert!(number_parser("x1", 2, 0).is_none());
    assert!(number_parser("-x", 2, 0).is_none());
    assert!(number_parser(".5", 2, 0).is_none());
}

#[test]
fn expression_precedence_shape() {
    let s = "2 + 3 * 4";
    let (e, end) = expression_parser(s, chars(s), 0).expect("expression");
    assert_eq!(end, chars(s));
    let expected = Expression::Binary(Box::new(BinaryExpr {
        op: BinaryOp::Add,
        lhs: Expression::Literal(String::from("2")),
        rhs: Expression::Binary(Box::new(BinaryExpr {
            op: BinaryOp::Mul,
            lhs: Expression::Literal(String::from("3")),
            rhs: Expression::Literal(String::from("4")),
        })),
    }));
    assert_eq!(e, expected);
}

#[test]
fn expression_left_associative_shape() {
    let s = "10 - 3 - 2";
    let (e, _) = expression_parser(s, chars(s), 0).expect("expression");
    let expected = Expression::Binary(Box::new(BinaryExpr {
        op: BinaryOp::Sub,
        lhs: Expression::Binary(Box::new(BinaryExpr {
            op: BinaryOp::Sub,
            lhs: Expression::Literal(String::from("10")),
            rhs: Expression::Literal(String::from("3")),
        })),
        rhs: Expression::Literal(String::from("2")),
    }));
    assert_eq!(e, expected);
}

#[test]
fn expression_comparison_ops() {
    let s = "a > b";
    let (e, _) = expression_parser(s, chars(s), 0).expect("expression");
    let expected = Expression::Binary(Box::new(BinaryExpr {
        op: BinaryOp::CmpL,
        lhs: Expression::Variable(String::from("a")),
        rhs: Expression::Variable(String::from("b")),
    }));
    assert_eq!(e, expected);

    let s = "a < b";
    let (e, _) = expression_parser(s, chars(s), 0).expect("expression");
    let expected = Expression::Binary(Box::new(BinaryExpr {
        op: BinaryOp::CmpR,
        lhs: Expression::Variable(String::from("a")),
        rhs: Expression::Variable(String::from("b")),
    }));
    assert_eq!(e, expected);
}

#[test]
fn expression_falls_back_to_bare_sum() {
    // A comparison operator with no sum after it is left unconsumed.
    let s = "5 <";
    let (e, end) = expression_parser(s, chars(s), 0).expect("expression");
    assert_eq!(e, Expression::Literal(String::from("5")));
    assert_eq!(end, 1);
}

#[test]
fn parenthesized_expression() {
    let s = "( 1 + 2 ) * 3";
    let (e, end) = expression_parser(s, chars(s), 0).expect("expression");
    assert_eq!(end, chars(s));
    let expected = Expression::Binary(Box::new(BinaryExpr {
        op: BinaryOp::Mul,
        lhs: Expression::Binary(Box::new(BinaryExpr {
            op: BinaryOp::Add,
            lhs: Expression::Literal(String::from("1")),
            rhs: Expression::Literal(String::from("2")),
        })),
        rhs: Expression::Literal(String::from("3")),
    }));
    assert_eq!(e, expected);
}

#[test]
fn let_statement_shape() {
    let s = "let x = 5;";
    let (l, end) = let_parser(s, chars(s), 0).expect("let");
    assert_eq!(end, chars(s));
    assert_eq!(l.variable, "x");
    assert_eq!(l.value, Expression::Literal(String::from("5")));
}

#[test]
fn print_statement_shape() {
    let s = "print y;";
    let (e, end) = print_parser(s, chars(s), 0).expect("print");
    assert_eq!(end, chars(s));
    assert_eq!(e, Expression::Variable(String::from("y")));
}

#[test]
fn statement_dispatch() {
    let s = "while i < 3 [ let i = i + 1; ]";
    let (st, end) = statement_parser(s, chars(s), 0).expect("statement");
    assert_eq!(end, chars(s));
    assert!(matches!(st, Statement::While(_)));

    let s = "if x > 0 [ ]";
    let (st, _) = statement_parser(s, chars(s), 0).expect("statement");
    assert!(matches!(st, Statement::If(_)));

    assert!(statement_parser("x = 5;", 6, 0).is_none());
}

#[test]
fn nested_blocks_parse() {
    let src = "Program ns nm [ while a > 0 [ if b < 1 [ print b; ] let a = a - 1; ] ]";
    let prog = program_parser(src).expect("parse");
    assert_eq!(prog.body.len(), 1);
}

#[test]
fn whitespace_is_insignificant_between_tokens() {
    let src = "Program ns nm [\n\tlet x\n=\n1 ;\r\n print   x ;\n]";
    assert!(program_parser(src).is_ok());
}

#[test]
fn rejects_trailing_close_bracket() {
    assert!(program_parser("Program ns nm [ ]]").is_err());
}

#[test]
fn rejects_garbage_after_whitespace_tail() {
    assert!(program_parser("Program ns nm [ print 1; ]  \n .").is_err());
}

use cahn_lang::parser::ParseError;
use cahn_lang::pipeline::{parse_source, source_to_sexpr, CompileError};
use cahn_lang::token::{TokenPos, TokenType};

fn sexpr(source: &str) -> String {
    source_to_sexpr(source).unwrap().iter().collect()
}

#[test]
fn basic_precedence() {
    let src = "print 2 + 2 * 3";
    assert_eq!(&sexpr(src), "(program (print (+ 2 (* 2 3)))\n)");
}

#[test]
fn math_expression_tree() {
    assert_eq!(
        sexpr("(2 + 3) * -0.5 / 10 - -5"),
        "(program (- (/ (* ((+ 2 3)) (- 0.5)) 10) (- 5))\n)"
    );
}

#[test]
fn or_binds_looser_than_and() {
    assert_eq!(sexpr("a or b and c"), "(program (or a (and b c))\n)");
}

#[test]
fn exponent_groups_to_the_right() {
    assert_eq!(sexpr("2 ** 3 ** 2"), "(program (** 2 (** 3 2))\n)");
}

#[test]
fn statements_and_blocks() {
    assert_eq!(
        sexpr("let x := 1; if x < 2 { print x } else if x { print 0 } else { }\nwhile x { x := x - 1 }"),
        "(program (let x 1)\n(if (< x 2) then (block (print x)\n) else (if x then (block (print 0)\n) else (block )))\n(while x (block (:= x (- x 1))\n))\n)"
    );
}

#[test]
fn lists_calls_and_subscripts() {
    assert_eq!(
        sexpr("f(1, [], [2,],)[0]"),
        "(program ([] (call f 1, (list ), (list 2, ), ) 0)\n)"
    );
}

#[test]
fn functions_and_return() {
    assert_eq!(
        sexpr("fn add(a, b,) { return a + b }\nreturn"),
        "(program (fn add (a, b) (block (return (+ a b))\n))\n(return)\n)"
    );
}

#[test]
fn empty_program() {
    assert_eq!(sexpr(""), "(program )");
    assert_eq!(sexpr("  # nothing\n"), "(program )");
}

#[test]
fn same_tree_prints_the_same() {
    let a = sexpr("print [1, \"two\"][0]");
    let b = sexpr("print [1, \"two\"][0]");
    assert_eq!(a, b);
    assert_eq!(a, "(program (print ([] (list 1, \"two\", ) 0))\n)");
}

#[test]
fn chained_comparison_is_rejected() {
    match parse_source("a < b < c") {
        Err(CompileError::Parse(ParseError::ChainingComparisonOperator { operator })) => {
            assert_eq!(operator.token_type, TokenType::Less);
            assert_eq!(operator.pos, TokenPos::new(1, 7));
        }
        other => panic!("expected a chaining error, got {:?}", other.map(|_| ())),
    }
}

#[test]
fn chained_assignment_is_rejected() {
    match parse_source("a := b := c") {
        Err(CompileError::Parse(ParseError::ChainingAssignmentOperator { operator })) => {
            assert_eq!(operator.token_type, TokenType::ColonEqual);
            assert_eq!(operator.pos, TokenPos::new(1, 8));
        }
        other => panic!("expected a chaining error, got {:?}", other.map(|_| ())),
    }
}

#[test]
fn bad_token_is_reported() {
    match parse_source("print )") {
        Err(CompileError::Parse(ParseError::BadToken { token, .. })) => {
            assert_eq!(token.token_type, TokenType::ParenClose);
        }
        other => panic!("expected a bad token, got {:?}", other.map(|_| ())),
    }
    assert!(matches!(
        parse_source("{ print 1"),
        Err(CompileError::Parse(ParseError::BadToken { .. }))
    ));
}

#[test]
fn anonymous_function_is_not_implemented() {
    assert!(matches!(
        parse_source("let f := fn"),
        Err(CompileError::Parse(ParseError::UnexpectedToken { .. }))
    ));
}

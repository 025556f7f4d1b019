use rename_me::errors::{LexerError, ParseError};
use rename_me::lexer::{Lexer, Token};
use rename_me::parser::fn_attrs::{Attribute, Attributes};
use rename_me::parser::function::FunctionDeclaration;
use rename_me::parser::modifiers::{Modifiers, MOD_CONSTANT, MOD_EXTERNAL, MOD_PRIVATE, MOD_UNSAFE};
use rename_me::parser::{Expr, Parser, Stmt, TopLevel, Unary};
use rename_me::types::{FloatKind, IntegerWidth, Type};

fn parser_of(text: &[u8]) -> Parser {
    Parser::from(text.to_vec())
}

#[test]
fn function_parse_test() {
    {
        let input: &[u8] = b"funct main();";
        let mut parser: Parser = Parser::from(input.to_vec());
        let expected: FunctionDeclaration = FunctionDeclaration::new(
            Modifiers::default(),
            Attributes::default(),
            String::from("main"),
            Vec::default(),
            Type::Void,
        );
        assert_eq!(
            TopLevel::Function(expected),
            parser.parse().expect("Test failed!"),
        );
    };
    {
        let input: &[u8] = b"#(hot, strictfp, force_inline) const funct main(): i32;";
        let mut parser: Parser = Parser::from(input.to_vec());
        let expected: FunctionDeclaration = FunctionDeclaration::new(
            MOD_CONSTANT,
            Attributes::default()
                .with_attr(Attribute::Hot)
                .with_attr(Attribute::Strictfp)
                .with_attr(Attribute::ForceInline),
            String::from("main"),
            Vec::default(),
            Type::signed(IntegerWidth::W32),
        );
        assert_eq!(
            TopLevel::Function(expected),
            parser.parse().expect("Test failed!"),
        );
    };
}

#[test]
fn parses_parameters_and_return_type() {
    let mut parser = parser_of(b"unsafe extern funct add(a: u64, b: *const u8): f64;");
    let TopLevel::Function(function) = parser.parse().expect("a declaration");
    assert_eq!(function.modifiers(), MOD_UNSAFE | MOD_EXTERNAL);
    assert_eq!(function.identifier(), "add\0");
    let parameters = function.parameters();
    assert_eq!(parameters.len(), 2);
    assert_eq!(parameters[0].0, "a");
    assert_eq!(parameters[0].1, Type::unsigned(IntegerWidth::W64));
    assert_eq!(parameters[1].0, "b");
    assert_eq!(parameters[1].1, Type::Ptr);
    assert_eq!(function.return_type(), Type::Float(FloatKind::Double));
}

#[test]
fn parses_modifiers() {
    let mut parser = parser_of(b"private const unsafe extern funct f();");
    let TopLevel::Function(function) = parser.parse().expect("a declaration");
    assert_eq!(function.modifiers(), MOD_PRIVATE | MOD_CONSTANT | MOD_UNSAFE | MOD_EXTERNAL);
    let mut parser = parser_of(b"private funct g();");
    let TopLevel::Function(function) = parser.parse().expect("a declaration");
    assert_eq!(function.modifiers(), MOD_PRIVATE);
}

#[test]
fn refuses_extern_without_unsafe() {
    let mut parser = parser_of(b"extern funct f();");
    match parser.parse() {
        Err(ParseError::UnexpectedToken(error)) => assert_eq!(error.unexpected, Token::External),
        other => panic!("unexpected {:?}", other),
    }
}

#[test]
fn skips_a_shebang_line() {
    let mut parser = parser_of(b"#!/usr/bin/env renamec\nfunct main();");
    let TopLevel::Function(function) = parser.parse().expect("a declaration");
    assert_eq!(function.identifier(), "main\0");
}

#[test]
fn parses_method_and_purity_attributes() {
    let mut parser = parser_of(b"#(cold, try_inline) #(method[Point], unsafe(pure)) funct f();");
    let TopLevel::Function(function) = parser.parse().expect("a declaration");
    assert!(function.attributes().is_cold());
    assert!(function.attributes().is_try_inline());
    assert!(function.attributes().is_method());
    assert!(!function.attributes().is_hot());
    assert_eq!(function.attributes().purity(), Some(true));
    assert!(function.attributes().contains(&Attribute::Method(String::from("Point"))));
}

#[test]
fn lookup_type_knows_the_builtin_types() {
    let parser = parser_of(b"");
    assert_eq!(parser.lookup_type("void").unwrap(), Type::Void);
    assert_eq!(parser.lookup_type("bool").unwrap(), Type::Boolean);
    assert_eq!(parser.lookup_type("u8").unwrap(), Type::unsigned(IntegerWidth::W8));
    assert_eq!(parser.lookup_type("i16").unwrap(), Type::signed(IntegerWidth::W16));
    assert_eq!(parser.lookup_type("usize").unwrap(), Type::unsigned(IntegerWidth::Size));
    assert_eq!(parser.lookup_type("isize").unwrap(), Type::signed(IntegerWidth::Size));
    assert_eq!(parser.lookup_type("i128").unwrap(), Type::signed(IntegerWidth::W128));
    assert_eq!(parser.lookup_type("f16").unwrap(), Type::Float(FloatKind::Half));
    assert_eq!(parser.lookup_type("b16").unwrap(), Type::Float(FloatKind::BrainHalf));
    assert_eq!(parser.lookup_type("f32").unwrap(), Type::Float(FloatKind::Single));
    assert_eq!(parser.lookup_type("f128").unwrap(), Type::Float(FloatKind::Quad));
    assert!(matches!(
        parser.lookup_type("Point"),
        Err(ParseError::CustomType(name)) if name == "Point"
    ));
}

#[test]
fn parses_arithmetic_with_precedence() {
    let mut parser = parser_of(b"1 + 42.0f * 2;");
    let expr = parser.parse_expr().expect("an expression");
    match expr {
        Expr::Add(left, right) => {
            assert!(matches!(*left, Expr::IntegerLiteral(1)));
            match *right {
                Expr::Mul(a, b) => {
                    assert!(matches!(*a, Expr::FloatLiteral(ref text) if text == "42.0"));
                    assert!(matches!(*b, Expr::IntegerLiteral(2)));
                },
                other => panic!("unexpected {:?}", other),
            }
        },
        other => panic!("unexpected {:?}", other),
    }
}

#[test]
fn parses_left_associative_subtraction() {
    let mut parser = parser_of(b"7 - 2 - 1;");
    let expr = parser.parse_expr().expect("an expression");
    match expr {
        Expr::Sub(left, right) => {
            assert!(matches!(*left, Expr::Sub(_, _)));
            assert!(matches!(*right, Expr::IntegerLiteral(1)));
        },
        other => panic!("unexpected {:?}", other),
    }
}

#[test]
fn parses_unary_and_calls() {
    let mut parser = parser_of(b"-f(2, 3);");
    let expr = parser.parse_expr().expect("an expression");
    match expr {
        Expr::Unary(Unary::Minus, inner) => match *inner {
            Expr::FunctionCall(name, arguments) => {
                assert_eq!(name, "f");
                assert_eq!(arguments.len(), 2);
                assert!(matches!(arguments[0], Expr::IntegerLiteral(2)));
                assert!(matches!(arguments[1], Expr::IntegerLiteral(3)));
            },
            other => panic!("unexpected {:?}", other),
        },
        other => panic!("unexpected {:?}", other),
    }
}

#[test]
fn parses_statements() {
    let mut parser = parser_of(b"val x = 1; ");
    assert!(matches!(
        parser.parse_stmt().expect("a statement"),
        Stmt::Variable(ref name, Some(Expr::IntegerLiteral(1))) if name == "x"
    ));
    let mut parser = parser_of(b"val y; ");
    assert!(matches!(
        parser.parse_stmt().expect("a statement"),
        Stmt::Variable(ref name, None) if name == "y"
    ));
    let mut parser = parser_of(b"y = 2; ");
    assert!(matches!(
        parser.parse_stmt().expect("a statement"),
        Stmt::Assignment(ref name, Expr::IntegerLiteral(2)) if name == "y"
    ));
    let mut parser = parser_of(b"-1; ");
    assert!(matches!(
        parser.parse_stmt().expect("a statement"),
        Stmt::Unit(Expr::Unary(Unary::Minus, _))
    ));
}

#[test]
fn parses_a_block() {
    let mut parser = parser_of(b"const unsafe { val a = 1; a = 3; 2 };");
    match parser.parse_expr().expect("a block") {
        Expr::Block(modifiers, statements, tail) => {
            assert_eq!(modifiers, MOD_CONSTANT | MOD_UNSAFE);
            assert_eq!(statements.len(), 2);
            assert!(matches!(*tail, Expr::IntegerLiteral(2)));
        },
        other => panic!("unexpected {:?}", other),
    }
}

#[test]
fn reports_an_unexpected_token() {
    let mut parser = parser_of(b"funct ;");
    match parser.parse() {
        Err(ParseError::UnexpectedToken(error)) => assert_eq!(error.unexpected, Token::Semicolon),
        other => panic!("unexpected {:?}", other),
    }
}

#[test]
fn reports_a_lexer_error() {
    let mut parser = parser_of(b"@");
    assert!(matches!(
        parser.parse(),
        Err(ParseError::Lexer(LexerError::UnrecognisedCharacter('@')))
    ));
}

#[test]
fn reports_an_integer_literal_too_large() {
    let mut parser = parser_of(b"1000000000000000000000000000000000000000; ");
    assert!(matches!(
        parser.parse_expr(),
        Err(ParseError::IntegerLiteral(ref text)) if text == "1000000000000000000000000000000000000000"
    ));
}

#[test]
fn parser_new_wraps_a_lexer() {
    let mut parser = Parser::new(Lexer::new(b"funct main();".to_vec()));
    assert!(parser.parse().is_ok());
}

#[test]
fn call_arguments_are_expressions() {
    let mut parser = parser_of(b"f(1 + 2, -3);");
    match parser.parse_expr().expect("a call") {
        Expr::FunctionCall(name, arguments) => {
            assert_eq!(name, "f");
            assert_eq!(arguments.len(), 2);
            match &arguments[0] {
                Expr::Add(a, b) => {
                    assert!(matches!(**a, Expr::IntegerLiteral(1)));
                    assert!(matches!(**b, Expr::IntegerLiteral(2)));
                },
                other => panic!("unexpected {:?}", other),
            }
            assert!(matches!(arguments[1], Expr::Unary(Unary::Minus, _)));
        },
        other => panic!("unexpected {:?}", other),
    }
}

#[test]
fn unary_operators_nest() {
    let mut parser = parser_of(b"!!x;");
    match parser.parse_expr().expect("an expression") {
        Expr::Unary(Unary::Negate, inner) => match *inner {
            Expr::Unary(Unary::Negate, innermost) => {
                assert!(matches!(*innermost, Expr::VariableRef(ref v) if v == "x"));
            },
            other => panic!("unexpected {:?}", other),
        },
        other => panic!("unexpected {:?}", other),
    }
}

#[test]
fn attribute_lists_give_the_union_of_their_flags() {
    let mut parser = parser_of(b"#(strictfp, hot, strictfp,) #(hot) funct f();");
    let TopLevel::Function(function) = parser.parse().expect("a declaration");
    let expected = Attributes::default()
        .with_attr(Attribute::Hot)
        .with_attr(Attribute::Strictfp);
    assert_eq!(function.attributes(), &expected);
    assert!(!function.attributes().is_cold());
    assert!(!function.attributes().is_force_inline());
}

//! What the parser computes, as mathematical functions of the lexer state.
//!
//! Each function takes the state of the lexer before a parse and gives the
//! state after it and the parsed value or the error.  A sub-parse that is
//! followed by more grammar is only continued where it did not raise the
//! measure of the state; the parser's contracts show that this always holds.
use vstd::prelude::*;
use vstd::utf8::is_ascii_chars;

use crate::codegen::spec_integer_bits;
use crate::errors::{decimal_text, unnamed_input, ParseError, SpecParseError};
use crate::errors::Phase;
use crate::lexer::{
    LexState, SpecToken, Token, spec_peek_token, spec_read_token, spec_try_eat_shebang,
    cached_well_formed, is_digit, is_identifier_text, is_letter, is_literal_text, law_peek_token_shape, lemma_peek_token_measure, law_read_token_shape,
    lemma_try_eat_shebang_shape, token_well_formed,
};
use crate::parser::fn_attrs::{adds, law_adds_union, union_flags, Attribute, SpecAttribute, SpecAttributes};
use crate::parser::function::{SpecFunctionDeclaration, parameters_view};
use crate::parser::modifiers::{MOD_CONSTANT, MOD_EXTERNAL, MOD_PRIVATE, MOD_UNSAFE};
use crate::parser::{Expr, Stmt, TopLevel, Unary};
use crate::text::{all_decimal_digits, decimal_value, is_decimal_digit, parse_unsigned, unsigned_digits};
use crate::types::{FloatKind, IntegerWidth, Type};

verus! {

/// The mathematical value of an [`Expr`].
pub enum SpecExpr {
    Add(Box<SpecExpr>, Box<SpecExpr>),
    Sub(Box<SpecExpr>, Box<SpecExpr>),
    Mul(Box<SpecExpr>, Box<SpecExpr>),
    Div(Box<SpecExpr>, Box<SpecExpr>),
    Unary(Unary, Box<SpecExpr>),
    FunctionCall(Seq<char>, Seq<SpecExpr>),
    VariableRef(Seq<char>),
    Block(u8, Seq<SpecStmt>, Box<SpecExpr>),
    IntegerLiteral(u128),
    FloatLiteral(Seq<char>),
}

/// The mathematical value of a [`Stmt`].
pub enum SpecStmt {
    Variable(Seq<char>, Option<SpecExpr>),
    Assignment(Seq<char>, SpecExpr),
    Unit(SpecExpr),
}

/// The mathematical value of a [`TopLevel`].
pub enum SpecTopLevel {
    Function(SpecFunctionDeclaration),
}

/// The value of an expression.
#[verifier::opaque]
pub open spec fn expr_view(e: Expr) -> SpecExpr
    decreases e,
{
    match e {
        Expr::Add(a, b) => SpecExpr::Add(Box::new(expr_view(*a)), Box::new(expr_view(*b))),
        Expr::Sub(a, b) => SpecExpr::Sub(Box::new(expr_view(*a)), Box::new(expr_view(*b))),
        Expr::Mul(a, b) => SpecExpr::Mul(Box::new(expr_view(*a)), Box::new(expr_view(*b))),
        Expr::Div(a, b) => SpecExpr::Div(Box::new(expr_view(*a)), Box::new(expr_view(*b))),
        Expr::Unary(op, a) => SpecExpr::Unary(op, Box::new(expr_view(*a))),
        Expr::FunctionCall(name, args) => SpecExpr::FunctionCall(
            name@,
            Seq::new(
                args@.len(),
                |i: int|
                    if 0 <= i < args@.len() {
                        expr_view(args@[i])
                    } else {
                        SpecExpr::IntegerLiteral(0)
                    },
            ),
        ),
        Expr::VariableRef(name) => SpecExpr::VariableRef(name@),
        Expr::Block(modifiers, stmts, result) => SpecExpr::Block(
            modifiers,
            Seq::new(
                stmts@.len(),
                |i: int|
                    if 0 <= i < stmts@.len() {
                        stmt_view(stmts@[i])
                    } else {
                        SpecStmt::Unit(SpecExpr::IntegerLiteral(0))
                    },
            ),
            Box::new(expr_view(*result)),
        ),
        Expr::IntegerLiteral(v) => SpecExpr::IntegerLiteral(v),
        Expr::FloatLiteral(text) => SpecExpr::FloatLiteral(text@),
    }
}

/// The value of a statement.
#[verifier::opaque]
pub open spec fn stmt_view(s: Stmt) -> SpecStmt
    decreases s,
{
    match s {
        Stmt::Variable(name, value) => SpecStmt::Variable(
            name@,
            match value {
                Some(e) => Some(expr_view(e)),
                None => None,
            },
        ),
        Stmt::Assignment(name, e) => SpecStmt::Assignment(name@, expr_view(e)),
        Stmt::Unit(e) => SpecStmt::Unit(expr_view(e)),
    }
}

/// The value of a call, in terms of the values of its arguments.
pub proof fn lemma_call_view(name: String, args: Vec<Expr>)
    ensures
        expr_view(Expr::FunctionCall(name, args)) == SpecExpr::FunctionCall(name@, exprs_view(args@)),
{
    reveal(expr_view);
    reveal(stmt_view);
    let v = expr_view(Expr::FunctionCall(name, args));
    match v {
        SpecExpr::FunctionCall(n, a) => {
            assert(a =~= exprs_view(args@));
        },
        _ => {},
    }
}

/// The value of a block, in terms of the values of its statements.
pub proof fn lemma_block_view(modifiers: u8, stmts: Vec<Stmt>, result: Box<Expr>)
    ensures
        expr_view(Expr::Block(modifiers, stmts, result)) == SpecExpr::Block(
            modifiers,
            stmts_view(stmts@),
            Box::new(expr_view(*result)),
        ),
{
    reveal(expr_view);
    reveal(stmt_view);
    let v = expr_view(Expr::Block(modifiers, stmts, result));
    match v {
        SpecExpr::Block(m, a, r) => {
            assert(a =~= stmts_view(stmts@));
        },
        _ => {},
    }
}

/// The value of an expression that holds no sequence, in terms of the values
/// of its parts.
pub proof fn lemma_expr_view(e: Expr)
    ensures
        match e {
            Expr::Add(a, b) => expr_view(e) == SpecExpr::Add(
                Box::new(expr_view(*a)),
                Box::new(expr_view(*b)),
            ),
            Expr::Sub(a, b) => expr_view(e) == SpecExpr::Sub(
                Box::new(expr_view(*a)),
                Box::new(expr_view(*b)),
            ),
            Expr::Mul(a, b) => expr_view(e) == SpecExpr::Mul(
                Box::new(expr_view(*a)),
                Box::new(expr_view(*b)),
            ),
            Expr::Div(a, b) => expr_view(e) == SpecExpr::Div(
                Box::new(expr_view(*a)),
                Box::new(expr_view(*b)),
            ),
            Expr::Unary(op, a) => expr_view(e) == SpecExpr::Unary(op, Box::new(expr_view(*a))),
            Expr::VariableRef(name) => expr_view(e) == SpecExpr::VariableRef(name@),
            Expr::IntegerLiteral(v) => expr_view(e) == SpecExpr::IntegerLiteral(v),
            Expr::FloatLiteral(text) => expr_view(e) == SpecExpr::FloatLiteral(text@),
            _ => true,
        },
{
    reveal(expr_view);
    reveal(stmt_view);
}

/// The value of a statement, in terms of the values of its parts.
pub proof fn lemma_stmt_view(s: Stmt)
    ensures
        match s {
            Stmt::Variable(name, None) => stmt_view(s) == SpecStmt::Variable(name@, None),
            Stmt::Variable(name, Some(e)) => stmt_view(s) == SpecStmt::Variable(
                name@,
                Some(expr_view(e)),
            ),
            Stmt::Assignment(name, e) => stmt_view(s) == SpecStmt::Assignment(name@, expr_view(e)),
            Stmt::Unit(e) => stmt_view(s) == SpecStmt::Unit(expr_view(e)),
        },
{
    reveal(stmt_view);
    reveal(expr_view);
}

/// The values of a sequence of expressions.
pub open spec fn exprs_view(v: Seq<Expr>) -> Seq<SpecExpr> {
    Seq::new(v.len(), |i: int| expr_view(v[i]))
}

/// The values of a sequence of statements.
pub open spec fn stmts_view(v: Seq<Stmt>) -> Seq<SpecStmt> {
    Seq::new(v.len(), |i: int| stmt_view(v[i]))
}

/// The value of a top-level item.
pub open spec fn top_level_view(t: TopLevel) -> SpecTopLevel {
    match t {
        TopLevel::Function(f) => SpecTopLevel::Function(f@),
    }
}

/// The value of a result.
pub open spec fn token_result(r: Result<Token, ParseError>) -> Result<SpecToken, SpecParseError> {
    match r {
        Ok(t) => Ok(t@),
        Err(e) => Err(e@),
    }
}

/// The value of a result.
pub open spec fn token_ref_result(r: Result<&Token, ParseError>) -> Result<SpecToken, SpecParseError> {
    match r {
        Ok(t) => Ok(t@),
        Err(e) => Err(e@),
    }
}

/// The value of a result.
pub open spec fn unit_result(r: Result<(), ParseError>) -> Result<(), SpecParseError> {
    match r {
        Ok(_) => Ok(()),
        Err(e) => Err(e@),
    }
}

/// The value of a result.
pub open spec fn string_result(r: Result<String, ParseError>) -> Result<Seq<char>, SpecParseError> {
    match r {
        Ok(t) => Ok(t@),
        Err(e) => Err(e@),
    }
}

/// The value of a result.
pub open spec fn copy_result<T>(r: Result<T, ParseError>) -> Result<T, SpecParseError> {
    match r {
        Ok(t) => Ok(t),
        Err(e) => Err(e@),
    }
}

/// The value of a result.
pub open spec fn attribute_result(r: Result<Attribute, ParseError>) -> Result<SpecAttribute, SpecParseError> {
    match r {
        Ok(a) => Ok(a@),
        Err(e) => Err(e@),
    }
}

/// The value of a result.
pub open spec fn parameters_result(r: Result<Vec<(String, Type)>, ParseError>) -> Result<
    Seq<(Seq<char>, Type)>,
    SpecParseError,
> {
    match r {
        Ok(p) => Ok(parameters_view(p@)),
        Err(e) => Err(e@),
    }
}

/// The value of a result.
pub open spec fn expr_result(r: Result<Expr, ParseError>) -> Result<SpecExpr, SpecParseError> {
    match r {
        Ok(e) => Ok(expr_view(e)),
        Err(e) => Err(e@),
    }
}

/// The value of a result.
pub open spec fn stmt_result(r: Result<Stmt, ParseError>) -> Result<SpecStmt, SpecParseError> {
    match r {
        Ok(s) => Ok(stmt_view(s)),
        Err(e) => Err(e@),
    }
}

/// The value of a result.
pub open spec fn body_result(r: Result<Option<Expr>, ParseError>) -> Result<Option<SpecExpr>, SpecParseError> {
    match r {
        Ok(Some(e)) => Ok(Some(expr_view(e))),
        Ok(None) => Ok(None),
        Err(e) => Err(e@),
    }
}

/// The value of a result.
pub open spec fn top_level_result(r: Result<TopLevel, ParseError>) -> Result<SpecTopLevel, SpecParseError> {
    match r {
        Ok(t) => Ok(top_level_view(t)),
        Err(e) => Err(e@),
    }
}

// ---------------------------------------------------------------------------
// Reading tokens
// ---------------------------------------------------------------------------

/// The state after consuming the token held back by a peek.
pub open spec fn eaten(s: LexState) -> LexState {
    s.with_cached(None)
}

/// Peeks at the next token.
pub open spec fn spec_peek(s: LexState) -> (LexState, Result<SpecToken, SpecParseError>) {
    let (s1, r) = spec_peek_token(s);
    (
        s1,
        match r {
            Ok(t) => Ok(t),
            Err(e) => Err(SpecParseError::Lexer(e)),
        },
    )
}

/// Reads the next token.
pub open spec fn spec_read(s: LexState) -> (LexState, Result<SpecToken, SpecParseError>) {
    let (s1, r) = spec_read_token(s);
    (
        s1,
        match r {
            Ok(t) => Ok(t),
            Err(e) => Err(SpecParseError::Lexer(e)),
        },
    )
}

/// Reads the next token, which must be `expected`.
pub open spec fn spec_expect(s: LexState, expected: SpecToken) -> (LexState, Result<(), SpecParseError>) {
    let (s1, r) = spec_read(s);
    match r {
        Err(e) => (s1, Err(e)),
        Ok(t) => if t == expected {
            (s1, Ok(()))
        } else {
            (s1, Err(SpecParseError::UnexpectedToken(t)))
        },
    }
}

/// Reads the next token, which must be an identifier.
pub open spec fn spec_read_identifier(s: LexState) -> (LexState, Result<Seq<char>, SpecParseError>) {
    let (s1, r) = spec_read(s);
    match r {
        Err(e) => (s1, Err(e)),
        Ok(SpecToken::Identifier(name)) => (s1, Ok(name)),
        Ok(t) => (s1, Err(SpecParseError::UnexpectedToken(t))),
    }
}

/// Tokens that may not follow a complete term or factor.
pub open spec fn is_erroneous_follower(t: SpecToken) -> bool {
    ||| t is Identifier
    ||| t is Literal
    ||| t is Real
    ||| t is Function
    ||| t is Unsafe
    ||| t is External
    ||| t is Constant
    ||| t is Return
    ||| t is Val
    ||| t is OpenCurlyBracket
    ||| t is OpenBracket
    ||| t is OpenSquareBracket
    ||| t is Colon
    ||| t is ExclamationMark
}

// ---------------------------------------------------------------------------
// Types
// ---------------------------------------------------------------------------

/// The built-in type that `name` names.
pub open spec fn spec_lookup_type(name: Seq<char>) -> Result<Type, SpecParseError> {
    if name.len() == 0 || !is_ascii_chars(name) {
        Err(SpecParseError::Internal(unnamed_input(), Phase::Parsing))
    } else {
        let is_unsigned = name[0] == 'u';
        if name == "void"@ {
            Ok(Type::Void)
        } else if name == "bool"@ {
            Ok(Type::Boolean)
        } else if name == "u8"@ || name == "i8"@ {
            Ok(Type::Integer { width: IntegerWidth::W8, is_unsigned })
        } else if name == "u16"@ || name == "i16"@ {
            Ok(Type::Integer { width: IntegerWidth::W16, is_unsigned })
        } else if name == "u32"@ || name == "i32"@ {
            Ok(Type::Integer { width: IntegerWidth::W32, is_unsigned })
        } else if name == "u64"@ || name == "i64"@ {
            Ok(Type::Integer { width: IntegerWidth::W64, is_unsigned })
        } else if name == "u128"@ || name == "i128"@ {
            Ok(Type::Integer { width: IntegerWidth::W128, is_unsigned })
        } else if name == "usize"@ || name == "isize"@ {
            Ok(Type::Integer { width: IntegerWidth::Size, is_unsigned })
        } else if name == "f16"@ {
            Ok(Type::Float(FloatKind::Half))
        } else if name == "b16"@ {
            Ok(Type::Float(FloatKind::BrainHalf))
        } else if name == "f32"@ {
            Ok(Type::Float(FloatKind::Single))
        } else if name == "f64"@ {
            Ok(Type::Float(FloatKind::Double))
        } else if name == "f128"@ {
            Ok(Type::Float(FloatKind::Quad))
        } else {
            Err(SpecParseError::CustomType(name))
        }
    }
}

/// After a first token that is no identifier: `( '*' 'const' )* IDENTIFIER`,
/// a pointer.
pub open spec fn spec_pointer_type(s: LexState) -> (LexState, Result<Type, SpecParseError>)
    decreases s.measure(),
{
    let (s1, r) = spec_read(s);
    match r {
        Err(e) => (s1, Err(e)),
        Ok(SpecToken::Identifier(_)) => (s1, Ok(Type::Ptr)),
        Ok(SpecToken::Asterisk) => {
            let (s2, r2) = spec_read(s1);
            match r2 {
                Err(e) => (s2, Err(e)),
                Ok(SpecToken::Constant) => if s2.measure() < s.measure() {
                    spec_pointer_type(s2)
                } else {
                    (s2, Err(SpecParseError::Stalled))
                },
                Ok(t) => (s2, Err(SpecParseError::UnexpectedToken(t))),
            }
        },
        Ok(t) => (s1, Err(SpecParseError::UnexpectedToken(t))),
    }
}

/// `type : IDENTIFIER | ( '*' 'const' )+ IDENTIFIER ;`
pub open spec fn spec_parse_type(s: LexState) -> (LexState, Result<Type, SpecParseError>) {
    let (s1, r) = spec_peek(s);
    match r {
        Err(e) => (s1, Err(e)),
        Ok(SpecToken::Identifier(name)) => (eaten(s1), spec_lookup_type(name)),
        Ok(_) => spec_pointer_type(s1),
    }
}

// ---------------------------------------------------------------------------
// Attributes
// ---------------------------------------------------------------------------

/// `attribute : 'cold' | 'hot' | 'strictfp' | 'try_inline' | 'force_inline'
///            | 'method' '[' IDENTIFIER ']' | 'unsafe' '(' ( 'pure' | 'impure' ) ')' ;`
pub open spec fn spec_parse_function_attribute(s: LexState) -> (LexState, Result<SpecAttribute, SpecParseError>) {
    let (s1, r) = spec_read(s);
    match r {
        Err(e) => (s1, Err(e)),
        Ok(SpecToken::Identifier(name)) => if name == "cold"@ {
            (s1, Ok(SpecAttribute::Cold))
        } else if name == "hot"@ {
            (s1, Ok(SpecAttribute::Hot))
        } else if name == "strictfp"@ {
            (s1, Ok(SpecAttribute::Strictfp))
        } else if name == "try_inline"@ {
            (s1, Ok(SpecAttribute::TryInline))
        } else if name == "force_inline"@ {
            (s1, Ok(SpecAttribute::ForceInline))
        } else if name == "method"@ {
            let (s2, r2) = spec_expect(s1, SpecToken::OpenSquareBracket);
            match r2 {
                Err(e) => (s2, Err(e)),
                Ok(_) => {
                    let (s3, r3) = spec_read_identifier(s2);
                    match r3 {
                        Err(e) => (s3, Err(e)),
                        Ok(attached) => {
                            let (s4, r4) = spec_expect(s3, SpecToken::CloseSquareBracket);
                            match r4 {
                                Err(e) => (s4, Err(e)),
                                Ok(_) => (s4, Ok(SpecAttribute::Method(attached))),
                            }
                        },
                    }
                },
            }
        } else {
            (s1, Err(SpecParseError::UnexpectedToken(SpecToken::Identifier(name))))
        },
        Ok(SpecToken::Unsafe) => {
            let (s2, r2) = spec_expect(s1, SpecToken::OpenBracket);
            match r2 {
                Err(e) => (s2, Err(e)),
                Ok(_) => {
                    let (s3, r3) = spec_read(s2);
                    let purity: Result<SpecAttribute, SpecParseError> = match r3 {
                        Err(e) => Err(e),
                        Ok(SpecToken::Identifier(word)) => if word == "pure"@ {
                            Ok(SpecAttribute::Purity(true))
                        } else if word == "impure"@ {
                            Ok(SpecAttribute::Purity(false))
                        } else {
                            Err(SpecParseError::UnexpectedToken(SpecToken::Identifier(word)))
                        },
                        Ok(t) => Err(SpecParseError::UnexpectedToken(t)),
                    };
                    match purity {
                        Err(e) => (s3, Err(e)),
                        Ok(attribute) => {
                            let (s4, r4) = spec_expect(s3, SpecToken::CloseBracket);
                            match r4 {
                                Err(e) => (s4, Err(e)),
                                Ok(_) => (s4, Ok(attribute)),
                            }
                        },
                    }
                },
            }
        },
        Ok(t) => (s1, Err(SpecParseError::UnexpectedToken(t))),
    }
}

/// `attribute ( ',' attribute )* ','? ')'`, adding each to `out`: the state,
/// the attributes gathered, and whether the list was well formed.
pub open spec fn spec_attribute_list(s: LexState, out: SpecAttributes) -> (
    LexState,
    SpecAttributes,
    Result<(), SpecParseError>,
)
    decreases s.measure(),
{
    let (s1, r) = spec_parse_function_attribute(s);
    match r {
        Err(e) => (s1, out, Err(e)),
        Ok(a) => {
            let out1 = out.add(a);
            let (s2, r2) = spec_read(s1);
            match r2 {
                Err(e) => (s2, out1, Err(e)),
                Ok(SpecToken::Comma) => {
                    let (s3, r3) = spec_peek(s2);
                    match r3 {
                        Err(e) => (s3, out1, Err(e)),
                        Ok(SpecToken::CloseBracket) => (eaten(s3), out1, Ok(())),
                        Ok(_) => if s3.measure() < s.measure() {
                            spec_attribute_list(s3, out1)
                        } else {
                            (s3, out1, Err(SpecParseError::Stalled))
                        },
                    }
                },
                Ok(SpecToken::CloseBracket) => (s2, out1, Ok(())),
                Ok(t) => (s2, out1, Err(SpecParseError::UnexpectedToken(t))),
            }
        },
    }
}

/// `attributes : ( '#' '(' attribute_list )+ ;`, adding each attribute to `out`.
pub open spec fn spec_parse_function_attrs(s: LexState, out: SpecAttributes) -> (
    LexState,
    SpecAttributes,
    Result<(), SpecParseError>,
)
    decreases s.measure(), 1nat,
{
    let (s1, r1) = spec_expect(s, SpecToken::Hash);
    match r1 {
        Err(e) => (s1, out, Err(e)),
        Ok(_) => {
            let (s2, r2) = spec_expect(s1, SpecToken::OpenBracket);
            match r2 {
                Err(e) => (s2, out, Err(e)),
                Ok(_) => spec_more_attrs(s, spec_attribute_list(s2, out)),
            }
        },
    }
}

/// After one bracketed attribute list of a group that began at `s`: another
/// group where a `#` follows.
pub open spec fn spec_more_attrs(
    s: LexState,
    listed: (LexState, SpecAttributes, Result<(), SpecParseError>),
) -> (LexState, SpecAttributes, Result<(), SpecParseError>)
    decreases s.measure(), 0nat,
{
    let (s3, out3, r3) = listed;
    match r3 {
        Err(e) => (s3, out3, Err(e)),
        Ok(_) => {
            let (s4, r4) = spec_peek(s3);
            match r4 {
                Err(e) => (s4, out3, Err(e)),
                Ok(SpecToken::Hash) => if s4.measure() < s.measure() {
                    spec_parse_function_attrs(s4, out3)
                } else {
                    (s4, out3, Err(SpecParseError::Stalled))
                },
                Ok(_) => (s4, out3, Ok(())),
            }
        },
    }
}

// ---------------------------------------------------------------------------
// Parameters
// ---------------------------------------------------------------------------

/// `( IDENTIFIER ':' type ','? )* ')'` after `acc`.
pub open spec fn spec_parameter_list(s: LexState, acc: Seq<(Seq<char>, Type)>) -> (
    LexState,
    Result<Seq<(Seq<char>, Type)>, SpecParseError>,
)
    decreases s.measure(),
{
    let (s1, r) = spec_peek(s);
    match r {
        Err(e) => (s1, Err(e)),
        Ok(SpecToken::Identifier(name)) => {
            let (s2, r2) = spec_expect(eaten(s1), SpecToken::Colon);
            match r2 {
                Err(e) => (s2, Err(e)),
                Ok(_) => {
                    let (s3, r3) = spec_parse_type(s2);
                    match r3 {
                        Err(e) => (s3, Err(e)),
                        Ok(ty) => {
                            let acc1 = acc.push((name, ty));
                            let (s4, r4) = spec_peek(s3);
                            match r4 {
                                Err(e) => (s4, Err(e)),
                                Ok(t) => {
                                    let s5 = if t == SpecToken::Comma {
                                        eaten(s4)
                                    } else {
                                        s4
                                    };
                                    if s5.measure() < s.measure() {
                                        spec_parameter_list(s5, acc1)
                                    } else {
                                        (s5, Err(SpecParseError::Stalled))
                                    }
                                },
                            }
                        },
                    }
                },
            }
        },
        Ok(_) => {
            let (s2, r2) = spec_expect(s1, SpecToken::CloseBracket);
            match r2 {
                Err(e) => (s2, Err(e)),
                Ok(_) => (s2, Ok(acc)),
            }
        },
    }
}

/// `parameters : '(' ( IDENTIFIER ':' type ','? )* ')' ;`
pub open spec fn spec_parse_function_parameters(s: LexState) -> (
    LexState,
    Result<Seq<(Seq<char>, Type)>, SpecParseError>,
) {
    let (s1, r1) = spec_expect(s, SpecToken::OpenBracket);
    match r1 {
        Err(e) => (s1, Err(e)),
        Ok(_) => {
            let (s2, r2) = spec_peek(s1);
            match r2 {
                Err(e) => (s2, Err(e)),
                Ok(SpecToken::CloseBracket) => (eaten(s2), Ok(Seq::empty())),
                Ok(_) => spec_parameter_list(s2, Seq::empty()),
            }
        },
    }
}

// ---------------------------------------------------------------------------
// Expressions and statements
// ---------------------------------------------------------------------------

/// The text without its last character, where it has one.
pub open spec fn without_last(text: Seq<char>) -> Seq<char> {
    if text.len() == 0 {
        text
    } else {
        text.drop_last()
    }
}

/// `expr : term ;`
#[verifier::opaque]
pub open spec fn spec_parse_expr(s: LexState) -> (LexState, Result<SpecExpr, SpecParseError>)
    decreases s.measure(), 9nat,
{
    spec_parse_term_expr(s)
}

/// `term : factor ( ( '+' | '-' ) factor )* ;`, left-associative.
#[verifier::opaque]
pub open spec fn spec_parse_term_expr(s: LexState) -> (LexState, Result<SpecExpr, SpecParseError>)
    decreases s.measure(), 8nat,
{
    let (s1, r) = spec_parse_factor_expr(s);
    match r {
        Err(e) => (s1, Err(e)),
        Ok(e) => if s1.measure() <= s.measure() {
            spec_term_loop(s1, e)
        } else {
            (s1, Err(SpecParseError::Stalled))
        },
    }
}

/// The rest of a term after `acc`.
#[verifier::opaque]
pub open spec fn spec_term_loop(s: LexState, acc: SpecExpr) -> (LexState, Result<SpecExpr, SpecParseError>)
    decreases s.measure(), 0nat,
{
    let (s1, r) = spec_peek(s);
    match r {
        Err(e) => (s1, Err(e)),
        Ok(t) => if (t is Plus || t is Minus) && eaten(s1).measure() < s.measure() {
            let (s2, r2) = spec_parse_factor_expr(eaten(s1));
            match r2 {
                Err(e) => (s2, Err(e)),
                Ok(rhs) => if s2.measure() <= eaten(s1).measure() {
                    spec_term_loop(
                        s2,
                        if t is Plus {
                            SpecExpr::Add(Box::new(acc), Box::new(rhs))
                        } else {
                            SpecExpr::Sub(Box::new(acc), Box::new(rhs))
                        },
                    )
                } else {
                    (s2, Err(SpecParseError::Stalled))
                },
            }
        } else if t is Plus || t is Minus {
            (s1, Err(SpecParseError::Stalled))
        } else if is_erroneous_follower(t) {
            (eaten(s1), Err(SpecParseError::UnexpectedToken(t)))
        } else {
            (s1, Ok(acc))
        },
    }
}

/// `factor : unary ( ( '*' | '/' ) unary )* ;`, left-associative.
#[verifier::opaque]
pub open spec fn spec_parse_factor_expr(s: LexState) -> (LexState, Result<SpecExpr, SpecParseError>)
    decreases s.measure(), 7nat,
{
    let (s1, r) = spec_parse_unary_expr(s);
    match r {
        Err(e) => (s1, Err(e)),
        Ok(e) => if s1.measure() <= s.measure() {
            spec_factor_loop(s1, e)
        } else {
            (s1, Err(SpecParseError::Stalled))
        },
    }
}

/// The rest of a factor after `acc`.
#[verifier::opaque]
pub open spec fn spec_factor_loop(s: LexState, acc: SpecExpr) -> (LexState, Result<SpecExpr, SpecParseError>)
    decreases s.measure(), 0nat,
{
    let (s1, r) = spec_peek(s);
    match r {
        Err(e) => (s1, Err(e)),
        Ok(t) => if (t is Asterisk || t is Slash) && eaten(s1).measure() < s.measure() {
            let (s2, r2) = spec_parse_unary_expr(eaten(s1));
            match r2 {
                Err(e) => (s2, Err(e)),
                Ok(rhs) => if s2.measure() <= eaten(s1).measure() {
                    spec_factor_loop(
                        s2,
                        if t is Asterisk {
                            SpecExpr::Mul(Box::new(acc), Box::new(rhs))
                        } else {
                            SpecExpr::Div(Box::new(acc), Box::new(rhs))
                        },
                    )
                } else {
                    (s2, Err(SpecParseError::Stalled))
                },
            }
        } else if t is Asterisk || t is Slash {
            (s1, Err(SpecParseError::Stalled))
        } else if is_erroneous_follower(t) {
            (eaten(s1), Err(SpecParseError::UnexpectedToken(t)))
        } else {
            (s1, Ok(acc))
        },
    }
}

/// The unary operator a token stands for, if any.
pub open spec fn unary_of(t: SpecToken) -> Option<Unary> {
    match t {
        SpecToken::Minus => Some(Unary::Minus),
        SpecToken::ExclamationMark => Some(Unary::Negate),
        SpecToken::Asterisk => Some(Unary::Ptr),
        SpecToken::Ampersand => Some(Unary::Ref),
        _ => None,
    }
}

/// `unary : ( '-' | '!' | '*' | '&' ) unary | call ;`
#[verifier::opaque]
pub open spec fn spec_parse_unary_expr(s: LexState) -> (LexState, Result<SpecExpr, SpecParseError>)
    decreases s.measure(), 6nat,
{
    let (s1, r) = spec_peek(s);
    match r {
        Err(e) => (s1, Err(e)),
        Ok(t) => match unary_of(t) {
            Some(op) => if eaten(s1).measure() < s.measure() {
                let (s2, r2) = spec_parse_unary_expr(eaten(s1));
                match r2 {
                    Err(e) => (s2, Err(e)),
                    Ok(e) => (s2, Ok(SpecExpr::Unary(op, Box::new(e)))),
                }
            } else {
                (s1, Err(SpecParseError::Stalled))
            },
            None => if s1.measure() <= s.measure() {
                spec_parse_function_call_expr(s1)
            } else {
                (s1, Err(SpecParseError::Stalled))
            },
        },
    }
}

/// `call : IDENTIFIER ( '(' ( expr ( ',' expr )* )? ')' )? | primary ;`
#[verifier::opaque]
pub open spec fn spec_parse_function_call_expr(s: LexState) -> (LexState, Result<SpecExpr, SpecParseError>)
    decreases s.measure(), 5nat,
{
    let (s1, r) = spec_peek(s);
    match r {
        Err(e) => (s1, Err(e)),
        Ok(SpecToken::Identifier(name)) => {
            let s2 = eaten(s1);
            let (s3, r3) = spec_peek(s2);
            match r3 {
                Err(e) => (s3, Err(e)),
                Ok(SpecToken::OpenBracket) => {
                    let s4 = eaten(s3);
                    let (s5, r5) = spec_peek(s4);
                    match r5 {
                        Err(e) => (s5, Err(e)),
                        Ok(SpecToken::CloseBracket) => (
                            eaten(s5),
                            Ok(SpecExpr::FunctionCall(name, Seq::empty())),
                        ),
                        Ok(_) => if s5.measure() < s.measure() {
                            spec_argument_list(s5, name, Seq::empty())
                        } else {
                            (s5, Err(SpecParseError::Stalled))
                        },
                    }
                },
                Ok(_) => (s3, Ok(SpecExpr::VariableRef(name))),
            }
        },
        Ok(_) => if s1.measure() <= s.measure() {
            spec_parse_primary_expr(s1)
        } else {
            (s1, Err(SpecParseError::Stalled))
        },
    }
}

/// `expr ( ',' expr )* ')'` after the arguments `acc` of a call of `name`.
#[verifier::opaque]
pub open spec fn spec_argument_list(s: LexState, name: Seq<char>, acc: Seq<SpecExpr>) -> (
    LexState,
    Result<SpecExpr, SpecParseError>,
)
    decreases s.measure() + 1, 0nat,
{
    let (s1, r) = spec_parse_expr(s);
    match r {
        Err(e) => (s1, Err(e)),
        Ok(arg) => {
            let acc1 = acc.push(arg);
            let (s2, r2) = spec_read(s1);
            match r2 {
                Err(e) => (s2, Err(e)),
                Ok(SpecToken::CloseBracket) => (s2, Ok(SpecExpr::FunctionCall(name, acc1))),
                Ok(SpecToken::Comma) => if s2.measure() < s.measure() {
                    spec_argument_list(s2, name, acc1)
                } else {
                    (s2, Err(SpecParseError::Stalled))
                },
                Ok(t) => (s2, Err(SpecParseError::UnexpectedToken(t))),
            }
        },
    }
}

/// `primary : block | '(' expr ')' | LITERAL | REAL ;`
#[verifier::opaque]
pub open spec fn spec_parse_primary_expr(s: LexState) -> (LexState, Result<SpecExpr, SpecParseError>)
    decreases s.measure(), 3nat,
{
    let (s1, r) = spec_peek(s);
    match r {
        Err(e) => (s1, Err(e)),
        Ok(t) => if t is Constant || t is Unsafe || t is OpenCurlyBracket {
            if s1.measure() <= s.measure() {
                spec_parse_block_expr(s1)
            } else {
                (s1, Err(SpecParseError::Stalled))
            }
        } else if t is OpenBracket {
            if eaten(s1).measure() < s.measure() {
                let (s2, r2) = spec_parse_expr(eaten(s1));
                match r2 {
                    Err(e) => (s2, Err(e)),
                    Ok(e) => {
                        let (s3, r3) = spec_expect(s2, SpecToken::CloseBracket);
                        match r3 {
                            Err(err) => (s3, Err(err)),
                            Ok(_) => (s3, Ok(e)),
                        }
                    },
                }
            } else {
                (s1, Err(SpecParseError::Stalled))
            }
        } else {
            match t {
                SpecToken::Literal(digits) => match parse_unsigned(digits, u128::MAX as nat) {
                    Some(v) => (eaten(s1), Ok(SpecExpr::IntegerLiteral(v as u128))),
                    None => (s1, Err(SpecParseError::IntegerLiteral(digits))),
                },
                SpecToken::Real(text) => (eaten(s1), Ok(SpecExpr::FloatLiteral(without_last(text)))),
                _ => (eaten(s1), Err(SpecParseError::UnexpectedToken(t))),
            }
        },
    }
}

/// The modifiers and the opening bracket of a block:
/// `( 'const' 'unsafe'? | 'unsafe' )? '{'`.
pub open spec fn spec_block_head(s: LexState) -> (LexState, Result<u8, SpecParseError>) {
    let (s1, r) = spec_read(s);
    match r {
        Err(e) => (s1, Err(e)),
        Ok(SpecToken::Constant) => {
            let (s2, r2) = spec_peek(s1);
            match r2 {
                Err(e) => (s2, Err(e)),
                Ok(t) => {
                    let (s3, modifiers) = if t is Unsafe {
                        (eaten(s2), MOD_CONSTANT | MOD_UNSAFE)
                    } else {
                        (s2, MOD_CONSTANT)
                    };
                    let (s4, r4) = spec_expect(s3, SpecToken::OpenCurlyBracket);
                    match r4 {
                        Err(e) => (s4, Err(e)),
                        Ok(_) => (s4, Ok(modifiers)),
                    }
                },
            }
        },
        Ok(SpecToken::Unsafe) => {
            let (s2, r2) = spec_expect(s1, SpecToken::OpenCurlyBracket);
            match r2 {
                Err(e) => (s2, Err(e)),
                Ok(_) => (s2, Ok(MOD_UNSAFE)),
            }
        },
        Ok(SpecToken::OpenCurlyBracket) => (s1, Ok(0u8)),
        Ok(t) => (s1, Err(SpecParseError::UnexpectedToken(t))),
    }
}

/// `block : ( 'const' 'unsafe'? | 'unsafe' )? '{' stmt* expr '}' ;`
#[verifier::opaque]
pub open spec fn spec_parse_block_expr(s: LexState) -> (LexState, Result<SpecExpr, SpecParseError>)
    decreases s.measure(), 2nat,
{
    let (s1, r) = spec_block_head(s);
    match r {
        Err(e) => (s1, Err(e)),
        Ok(modifiers) => if s1.measure() < s.measure() {
            spec_block_loop(s1, modifiers, Seq::empty())
        } else {
            (s1, Err(SpecParseError::Stalled))
        },
    }
}

/// The body of a block after the statements `stmts`, up to its closing bracket.
#[verifier::opaque]
pub open spec fn spec_block_loop(s: LexState, modifiers: u8, stmts: Seq<SpecStmt>) -> (
    LexState,
    Result<SpecExpr, SpecParseError>,
)
    decreases s.measure(), 12nat,
{
    let (s1, stmts1, r) = spec_parse_block_body(s, stmts);
    match r {
        Err(e) => (s1, Err(e)),
        Ok(Some(result)) => {
            let (s2, r2) = spec_expect(s1, SpecToken::CloseCurlyBracket);
            match r2 {
                Err(e) => (s2, Err(e)),
                Ok(_) => (s2, Ok(SpecExpr::Block(modifiers, stmts1, Box::new(result)))),
            }
        },
        Ok(None) => if s1.measure() < s.measure() {
            spec_block_loop(s1, modifiers, stmts1)
        } else {
            (s1, Err(SpecParseError::Stalled))
        },
    }
}

/// One step of a block body: a statement added to `dest`, or the final
/// expression of the block.
#[verifier::opaque]
pub open spec fn spec_parse_block_body(s: LexState, dest: Seq<SpecStmt>) -> (
    LexState,
    Seq<SpecStmt>,
    Result<Option<SpecExpr>, SpecParseError>,
)
    decreases s.measure(), 11nat,
{
    let (s1, r) = spec_peek(s);
    match r {
        Err(e) => (s1, dest, Err(e)),
        Ok(SpecToken::Val) => if s1.measure() <= s.measure() {
            let (s2, r2) = spec_parse_variable_stmt(s1);
            match r2 {
                Err(e) => (s2, dest, Err(e)),
                Ok(stmt) => (s2, dest.push(stmt), Ok(None)),
            }
        } else {
            (s1, dest, Err(SpecParseError::Stalled))
        },
        Ok(SpecToken::Identifier(name)) => {
            let (s3, r3) = spec_read(eaten(s1));
            match r3 {
                Err(e) => (s3, dest, Err(e)),
                Ok(SpecToken::Equals) => if s3.measure() < s.measure() {
                    let (s4, r4) = spec_parse_expr(s3);
                    match r4 {
                        Err(e) => (s4, dest, Err(e)),
                        Ok(e) => {
                            let (s5, r5) = spec_expect(s4, SpecToken::Semicolon);
                            match r5 {
                                Err(err) => (s5, dest, Err(err)),
                                Ok(_) => (s5, dest.push(SpecStmt::Assignment(name, e)), Ok(None)),
                            }
                        },
                    }
                } else {
                    (s3, dest, Err(SpecParseError::Stalled))
                },
                Ok(SpecToken::CloseCurlyBracket) => (
                    s3,
                    dest,
                    Ok(Some(SpecExpr::VariableRef(name))),
                ),
                Ok(SpecToken::Semicolon) => (
                    s3,
                    dest.push(SpecStmt::Unit(SpecExpr::VariableRef(name))),
                    Ok(None),
                ),
                Ok(t) => (s3, dest, Err(SpecParseError::UnexpectedToken(t))),
            }
        },
        Ok(SpecToken::CloseCurlyBracket) => (
            s1,
            dest,
            Err(SpecParseError::UnexpectedToken(SpecToken::CloseCurlyBracket)),
        ),
        Ok(_) => if s1.measure() <= s.measure() {
            let (s2, r2) = spec_parse_expr(s1);
            match r2 {
                Err(e) => (s2, dest, Err(e)),
                Ok(e) => {
                    let (s3, r3) = spec_peek(s2);
                    match r3 {
                        Err(err) => (s3, dest, Err(err)),
                        Ok(SpecToken::Semicolon) => (eaten(s3), dest.push(SpecStmt::Unit(e)), Ok(None)),
                        Ok(_) => (s3, dest, Ok(Some(e))),
                    }
                },
            }
        } else {
            (s1, dest, Err(SpecParseError::Stalled))
        },
    }
}

/// `variableStmt : 'val' IDENTIFIER ( ';' | '=' expr ';' ) ;`
#[verifier::opaque]
pub open spec fn spec_parse_variable_stmt(s: LexState) -> (LexState, Result<SpecStmt, SpecParseError>)
    decreases s.measure(), 10nat,
{
    let (s1, r1) = spec_expect(s, SpecToken::Val);
    match r1 {
        Err(e) => (s1, Err(e)),
        Ok(_) => {
            let (s2, r2) = spec_read_identifier(s1);
            match r2 {
                Err(e) => (s2, Err(e)),
                Ok(name) => {
                    let (s3, r3) = spec_read(s2);
                    match r3 {
                        Err(e) => (s3, Err(e)),
                        Ok(SpecToken::Semicolon) => (s3, Ok(SpecStmt::Variable(name, None))),
                        Ok(SpecToken::Equals) => if s3.measure() < s.measure() {
                            let (s4, r4) = spec_parse_unit_stmt(s3);
                            match r4 {
                                Err(e) => (s4, Err(e)),
                                Ok(SpecStmt::Unit(e)) => (s4, Ok(SpecStmt::Variable(name, Some(e)))),
                                Ok(_) => (s4, Err(SpecParseError::Internal(unnamed_input(), Phase::Parsing))),
                            }
                        } else {
                            (s3, Err(SpecParseError::Stalled))
                        },
                        Ok(t) => (s3, Err(SpecParseError::UnexpectedToken(t))),
                    }
                },
            }
        },
    }
}

/// `unitStmt : expr ';' ;`
#[verifier::opaque]
pub open spec fn spec_parse_unit_stmt(s: LexState) -> (LexState, Result<SpecStmt, SpecParseError>)
    decreases s.measure(), 10nat,
{
    let (s1, r) = spec_parse_expr(s);
    match r {
        Err(e) => (s1, Err(e)),
        Ok(e) => {
            let (s2, r2) = spec_expect(s1, SpecToken::Semicolon);
            match r2 {
                Err(err) => (s2, Err(err)),
                Ok(_) => (s2, Ok(SpecStmt::Unit(e))),
            }
        },
    }
}

/// `assignmentStmt : IDENTIFIER '=' expr ';' ;`
pub open spec fn spec_parse_assignment_stmt(s: LexState) -> (LexState, Result<SpecStmt, SpecParseError>) {
    let (s1, r1) = spec_read_identifier(s);
    match r1 {
        Err(e) => (s1, Err(e)),
        Ok(name) => {
            let (s2, r2) = spec_expect(s1, SpecToken::Equals);
            match r2 {
                Err(e) => (s2, Err(e)),
                Ok(_) => {
                    let (s3, r3) = spec_parse_unit_stmt(s2);
                    match r3 {
                        Err(e) => (s3, Err(e)),
                        Ok(SpecStmt::Unit(e)) => (s3, Ok(SpecStmt::Assignment(name, e))),
                        Ok(_) => (s3, Err(SpecParseError::Internal(unnamed_input(), Phase::Parsing))),
                    }
                },
            }
        },
    }
}

/// `stmt : variableStmt | assignmentStmt | unitStmt ;`, chosen by the next token.
pub open spec fn spec_parse_stmt(s: LexState) -> (LexState, Result<SpecStmt, SpecParseError>) {
    let (s1, r) = spec_peek(s);
    match r {
        Err(e) => (s1, Err(e)),
        Ok(SpecToken::Val) => spec_parse_variable_stmt(s1),
        Ok(SpecToken::Identifier(_)) => spec_parse_assignment_stmt(s1),
        Ok(_) => spec_parse_unit_stmt(s1),
    }
}

// ---------------------------------------------------------------------------
// Declarations
// ---------------------------------------------------------------------------

/// An optional `extern` after the modifiers `modifiers`.
pub open spec fn spec_try_extern(s: LexState, modifiers: u8) -> (LexState, Result<u8, SpecParseError>) {
    let (s1, r) = spec_peek(s);
    match r {
        Err(e) => (s1, Err(e)),
        Ok(SpecToken::External) => (eaten(s1), Ok(modifiers | MOD_EXTERNAL)),
        Ok(_) => (s1, Ok(modifiers)),
    }
}

/// An optional `unsafe extern?` after the modifiers `modifiers`.
pub open spec fn spec_try_unsafe_extern(s: LexState, modifiers: u8) -> (LexState, Result<u8, SpecParseError>) {
    let (s1, r) = spec_peek(s);
    match r {
        Err(e) => (s1, Err(e)),
        Ok(SpecToken::Unsafe) => spec_try_extern(eaten(s1), modifiers | MOD_UNSAFE),
        Ok(_) => (s1, Ok(modifiers)),
    }
}

/// The modifiers of a declaration:
/// `( 'private' 'const'? ( 'unsafe' 'extern'? )? | 'const' ( 'unsafe' 'extern'? )? | 'unsafe' 'extern'? )?`,
/// before `funct`.
pub open spec fn spec_declaration_modifiers(s: LexState) -> (LexState, Result<u8, SpecParseError>) {
    let (s1, r) = spec_peek(s);
    match r {
        Err(e) => (s1, Err(e)),
        Ok(SpecToken::Function) => (s1, Ok(0u8)),
        Ok(SpecToken::Private) => {
            let (s2, r2) = spec_peek(eaten(s1));
            match r2 {
                Err(e) => (s2, Err(e)),
                Ok(SpecToken::Constant) => spec_try_unsafe_extern(
                    eaten(s2),
                    MOD_PRIVATE | MOD_CONSTANT,
                ),
                Ok(_) => spec_try_unsafe_extern(s2, MOD_PRIVATE),
            }
        },
        Ok(SpecToken::Constant) => spec_try_unsafe_extern(eaten(s1), MOD_CONSTANT),
        Ok(SpecToken::Unsafe) => spec_try_extern(eaten(s1), MOD_UNSAFE),
        Ok(t) => (eaten(s1), Err(SpecParseError::UnexpectedToken(t))),
    }
}

/// An optional return type: `( ':' type )?`, `void` where absent.
pub open spec fn spec_return_type(s: LexState) -> (LexState, Result<Type, SpecParseError>) {
    let (s1, r) = spec_peek(s);
    match r {
        Err(e) => (s1, Err(e)),
        Ok(SpecToken::Colon) => spec_parse_type(eaten(s1)),
        Ok(_) => (s1, Ok(Type::Void)),
    }
}

/// The end of a declaration: `';'` or a block, which is parsed and dropped.
pub open spec fn spec_declaration_end(s: LexState) -> (LexState, Result<(), SpecParseError>) {
    let (s1, r) = spec_peek(s);
    match r {
        Err(e) => (s1, Err(e)),
        Ok(SpecToken::Semicolon) => (eaten(s1), Ok(())),
        Ok(SpecToken::OpenCurlyBracket) => {
            let (s2, r2) = spec_parse_block_expr(s1);
            match r2 {
                Err(e) => (s2, Err(e)),
                Ok(_) => (s2, Ok(())),
            }
        },
        Ok(t) => (eaten(s1), Err(SpecParseError::UnexpectedToken(t))),
    }
}

/// A declaration with the attributes `attributes` already read:
/// `modifiers 'funct' IDENTIFIER parameters ( ':' type )? ( ';' | block )`.
pub open spec fn spec_declaration(s: LexState, attributes: SpecAttributes) -> (
    LexState,
    Result<SpecTopLevel, SpecParseError>,
) {
    let (s1, r1) = spec_declaration_modifiers(s);
    match r1 {
        Err(e) => (s1, Err(e)),
        Ok(modifiers) => {
            let (s2, r2) = spec_expect(s1, SpecToken::Function);
            match r2 {
                Err(e) => (s2, Err(e)),
                Ok(_) => {
                    let (s3, r3) = spec_read_identifier(s2);
                    match r3 {
                        Err(e) => (s3, Err(e)),
                        Ok(identifier) => {
                            let (s4, r4) = spec_parse_function_parameters(s3);
                            match r4 {
                                Err(e) => (s4, Err(e)),
                                Ok(parameters) => {
                                    let (s5, r5) = spec_return_type(s4);
                                    match r5 {
                                        Err(e) => (s5, Err(e)),
                                        Ok(return_type) => {
                                            let (s6, r6) = spec_declaration_end(s5);
                                            match r6 {
                                                Err(e) => (s6, Err(e)),
                                                Ok(_) => (
                                                    s6,
                                                    Ok(
                                                        SpecTopLevel::Function(
                                                            SpecFunctionDeclaration {
                                                                modifiers,
                                                                attributes,
                                                                identifier: identifier.push('\0'),
                                                                parameters,
                                                                return_type,
                                                            },
                                                        ),
                                                    ),
                                                ),
                                            }
                                        },
                                    }
                                },
                            }
                        },
                    }
                },
            }
        },
    }
}

/// `topLevel : SHEBANG* attributes? declaration ;`
pub open spec fn spec_parse_top_level(s: LexState) -> (LexState, Result<SpecTopLevel, SpecParseError>)
    decreases s.measure(),
{
    let (s1, r) = spec_peek(s);
    match r {
        Err(e) => (s1, Err(e)),
        Ok(SpecToken::Hash) => {
            let (s2, r2) = spec_try_eat_shebang(s1);
            match r2 {
                Err(e) => (s2, Err(SpecParseError::Lexer(e))),
                Ok(true) => if s2.measure() < s.measure() {
                    spec_parse_top_level(s2)
                } else {
                    (s2, Err(SpecParseError::Stalled))
                },
                Ok(false) => {
                    let (s3, attributes, r3) = spec_parse_function_attrs(
                        s2,
                        SpecAttributes::empty(),
                    );
                    match r3 {
                        Err(e) => (s3, Err(e)),
                        Ok(_) => spec_declaration(s3, attributes),
                    }
                },
            }
        },
        Ok(_) => spec_declaration(s1, SpecAttributes::empty()),
    }
}

} // verus!

verus! {

// ---------------------------------------------------------------------------
// Laws of declarations
// ---------------------------------------------------------------------------

/// The modifiers that a declaration may carry: the four flags alone, and
/// `extern` only with `unsafe`.
pub open spec fn modifiers_allowed(m: u8) -> bool {
    m <= 15 && (m & MOD_EXTERNAL != 0 ==> m & MOD_UNSAFE != 0)
}

proof fn lemma_try_extern_allowed(s: LexState, m: u8)
    requires
        m <= 15,
        m & MOD_UNSAFE != 0,
    ensures
        spec_try_extern(s, m).1 matches Ok(r) ==> modifiers_allowed(r),
{
    assert(m <= 15 && m & 2 != 0 ==> (m | 4) <= 15 && (m | 4) & 2 != 0) by (bit_vector);
}

proof fn lemma_try_unsafe_extern_allowed(s: LexState, m: u8)
    requires
        m <= 15,
        m & MOD_EXTERNAL == 0,
    ensures
        spec_try_unsafe_extern(s, m).1 matches Ok(r) ==> modifiers_allowed(r),
{
    assert(m <= 15 ==> (m | 2) <= 15 && (m | 2) & 2 != 0) by (bit_vector);
    let (s1, r) = spec_peek(s);
    if r matches Ok(SpecToken::Unsafe) {
        lemma_try_extern_allowed(eaten(s1), m | MOD_UNSAFE);
    }
}

/// The modifiers before `funct` are those of
/// `( 'private' 'const'? | 'const' )? ( 'unsafe' 'extern'? )?`: each keyword
/// sets its flag, and `extern` comes only after `unsafe`.
pub proof fn law_declaration_modifiers(s: LexState)
    ensures
        spec_declaration_modifiers(s).1 matches Ok(m) ==> modifiers_allowed(m),
{
    assert(0u8 & 4 == 0 && 9u8 & 4 == 0 && 8u8 & 4 == 0 && 1u8 & 4 == 0 && 2u8 & 2 != 0)
        by (bit_vector);
    assert(8u8 | 1u8 == 9u8) by (bit_vector);
    let (s1, r) = spec_peek(s);
    match r {
        Ok(SpecToken::Private) => {
            let (s2, r2) = spec_peek(eaten(s1));
            lemma_try_unsafe_extern_allowed(eaten(s2), MOD_PRIVATE | MOD_CONSTANT);
            lemma_try_unsafe_extern_allowed(s2, MOD_PRIVATE);
        },
        Ok(SpecToken::Constant) => lemma_try_unsafe_extern_allowed(eaten(s1), MOD_CONSTANT),
        Ok(SpecToken::Unsafe) => lemma_try_extern_allowed(eaten(s1), MOD_UNSAFE),
        _ => {},
    }
}

/// Every declaration parsed carries allowed modifiers, and its identifier is
/// the name read with one NUL appended.
pub proof fn law_declaration_shape(s: LexState, attributes: SpecAttributes)
    ensures
        spec_declaration(s, attributes).1 matches Ok(SpecTopLevel::Function(d)) ==> {
            &&& modifiers_allowed(d.modifiers)
            &&& d.identifier.len() > 0
            &&& d.identifier.last() == '\0'
            &&& d.attributes == attributes
        },
{
    law_declaration_modifiers(s);
}

/// Every function that the parser reads carries allowed modifiers, and its
/// identifier ends in the one NUL appended to the name.
pub proof fn law_top_level_shape(s: LexState)
    ensures
        spec_parse_top_level(s).1 matches Ok(SpecTopLevel::Function(d)) ==> {
            &&& modifiers_allowed(d.modifiers)
            &&& d.identifier.len() > 0
            &&& d.identifier.last() == '\0'
        },
    decreases s.measure(),
{
    let (s1, r) = spec_peek(s);
    match r {
        Ok(SpecToken::Hash) => {
            let (s2, r2) = spec_try_eat_shebang(s1);
            match r2 {
                Ok(true) => if s2.measure() < s.measure() {
                    law_top_level_shape(s2);
                },
                Ok(false) => {
                    let (s3, attributes, r3) = spec_parse_function_attrs(
                        s2,
                        SpecAttributes::empty(),
                    );
                    law_declaration_shape(s3, attributes);
                },
                _ => {},
            }
        },
        Ok(_) => law_declaration_shape(s1, SpecAttributes::empty()),
        _ => {},
    }
}

} // verus!

verus! {

proof fn lemma_peek_shape(s: LexState)
    requires
        cached_well_formed(s),
    ensures
        cached_well_formed(spec_peek(s).0),
        cached_well_formed(eaten(spec_peek(s).0)),
        spec_peek(s).1 matches Ok(t) ==> token_well_formed(t),
{
    law_peek_token_shape(s);
}

proof fn lemma_read_shape(s: LexState)
    requires
        cached_well_formed(s),
    ensures
        cached_well_formed(spec_read(s).0),
        spec_read(s).1 matches Ok(t) ==> token_well_formed(t),
        spec_expect(s, SpecToken::Hash).0 == spec_read(s).0,
{
    law_read_token_shape(s);
}

proof fn lemma_attribute_shape(s: LexState)
    requires
        cached_well_formed(s),
    ensures
        cached_well_formed(spec_parse_function_attribute(s).0),
{
    lemma_read_shape(s);
    let s1 = spec_read(s).0;
    lemma_read_shape(s1);
    let s2 = spec_read(s1).0;
    lemma_read_shape(s2);
    let s3 = spec_read(s2).0;
    lemma_read_shape(s3);
}

proof fn lemma_attribute_list_shape(s: LexState, out: SpecAttributes)
    requires
        cached_well_formed(s),
    ensures
        cached_well_formed(spec_attribute_list(s, out).0),
    decreases s.measure(),
{
    lemma_attribute_shape(s);
    let (s1, r) = spec_parse_function_attribute(s);
    if let Ok(a) = r {
        lemma_read_shape(s1);
        let (s2, r2) = spec_read(s1);
        if r2 matches Ok(SpecToken::Comma) {
            lemma_peek_shape(s2);
            let (s3, r3) = spec_peek(s2);
            if s3.measure() < s.measure() {
                lemma_attribute_list_shape(s3, out.add(a));
            }
        }
    }
}

proof fn lemma_attrs_shape(s: LexState, out: SpecAttributes)
    requires
        cached_well_formed(s),
    ensures
        cached_well_formed(spec_parse_function_attrs(s, out).0),
    decreases s.measure(), 1nat,
{
    lemma_read_shape(s);
    let (s1, r1) = spec_expect(s, SpecToken::Hash);
    lemma_read_shape(s1);
    let (s2, r2) = spec_expect(s1, SpecToken::OpenBracket);
    if r1 is Ok && r2 is Ok {
        lemma_attribute_list_shape(s2, out);
        lemma_more_attrs_shape(s, spec_attribute_list(s2, out));
    }
}

proof fn lemma_more_attrs_shape(
    s: LexState,
    listed: (LexState, SpecAttributes, Result<(), SpecParseError>),
)
    requires
        cached_well_formed(listed.0),
    ensures
        cached_well_formed(spec_more_attrs(s, listed).0),
    decreases s.measure(), 0nat,
{
    let (s3, out3, r3) = listed;
    if r3 is Ok {
        lemma_peek_shape(s3);
        let (s4, r4) = spec_peek(s3);
        if r4 matches Ok(SpecToken::Hash) {
            if s4.measure() < s.measure() {
                lemma_attrs_shape(s4, out3);
            }
        }
    }
}

proof fn lemma_try_extern_shape(s: LexState, m: u8)
    requires
        cached_well_formed(s),
    ensures
        cached_well_formed(spec_try_extern(s, m).0),
        cached_well_formed(spec_try_unsafe_extern(s, m).0),
{
    lemma_peek_shape(s);
    let s1 = spec_peek(s).0;
    lemma_peek_shape(eaten(s1));
}

proof fn lemma_modifiers_shape(s: LexState)
    requires
        cached_well_formed(s),
    ensures
        cached_well_formed(spec_declaration_modifiers(s).0),
{
    lemma_peek_shape(s);
    let s1 = spec_peek(s).0;
    lemma_peek_shape(eaten(s1));
    let s2 = spec_peek(eaten(s1)).0;
    lemma_try_extern_shape(eaten(s1), MOD_CONSTANT);
    lemma_try_extern_shape(eaten(s1), MOD_UNSAFE);
    lemma_peek_shape(s2);
    lemma_try_extern_shape(eaten(s2), MOD_PRIVATE | MOD_CONSTANT);
    lemma_try_extern_shape(s2, MOD_PRIVATE);
}

/// The name of every declaration parsed from a lexer whose held-back token
/// has its shape is an identifier of the grammar (a start character, then
/// rest characters, with a letter among them), kept as read and followed by
/// one NUL.
pub proof fn law_declaration_identifier(s: LexState, attributes: SpecAttributes)
    requires
        cached_well_formed(s),
    ensures
        spec_declaration(s, attributes).1 matches Ok(SpecTopLevel::Function(d)) ==> (
        d.identifier.len() > 0 && d.identifier.last() == '\0' && is_identifier_text(
            d.identifier.drop_last(),
        )),
{
    lemma_modifiers_shape(s);
    let (s1, r1) = spec_declaration_modifiers(s);
    lemma_read_shape(s1);
    let (s2, r2) = spec_expect(s1, SpecToken::Function);
    lemma_read_shape(s2);
    let (s3, r3) = spec_read(s2);
    if let Ok(SpecToken::Identifier(name)) = r3 {
        assert(name.push('\0').drop_last() =~= name);
    }
}

/// The same, for every function that the parser reads.
pub proof fn law_top_level_identifier(s: LexState)
    requires
        cached_well_formed(s),
    ensures
        spec_parse_top_level(s).1 matches Ok(SpecTopLevel::Function(d)) ==> (d.identifier.len()
            > 0 && d.identifier.last() == '\0' && is_identifier_text(d.identifier.drop_last())),
    decreases s.measure(),
{
    lemma_peek_shape(s);
    let (s1, r) = spec_peek(s);
    match r {
        Ok(SpecToken::Hash) => {
            lemma_try_eat_shebang_shape(s1);
            let (s2, r2) = spec_try_eat_shebang(s1);
            match r2 {
                Ok(true) => if s2.measure() < s.measure() {
                    law_top_level_identifier(s2);
                },
                Ok(false) => {
                    lemma_attrs_shape(s2, SpecAttributes::empty());
                    let (s3, attributes, r3) = spec_parse_function_attrs(
                        s2,
                        SpecAttributes::empty(),
                    );
                    law_declaration_identifier(s3, attributes);
                },
                _ => {},
            }
        },
        Ok(_) => law_declaration_identifier(s1, SpecAttributes::empty()),
        _ => {},
    }
}

/// Adding `a` and then `attrs` is adding `seq![a] + attrs`.
proof fn lemma_adds_cons(out: SpecAttributes, a: SpecAttribute, attrs: Seq<SpecAttribute>)
    ensures
        adds(out, seq![a] + attrs) == adds(out.add(a), attrs),
{
    assert((seq![a] + attrs)[0] == a);
    assert((seq![a] + attrs).drop_first() =~= attrs);
}

/// Adding `x` and then `y` is adding `x + y`.
proof fn lemma_adds_concat(out: SpecAttributes, x: Seq<SpecAttribute>, y: Seq<SpecAttribute>)
    ensures
        adds(out, x + y) == adds(adds(out, x), y),
    decreases x.len(),
{
    if x.len() == 0 {
        assert(x + y =~= y);
    } else {
        assert((x + y)[0] == x[0]);
        assert((x + y).drop_first() =~= x.drop_first() + y);
        lemma_adds_concat(out.add(x[0]), x.drop_first(), y);
    }
}

/// An attribute list adds the attributes that it reads to `out`, one after
/// another, and changes nothing else; one that is well formed reads at least one.
pub proof fn law_attribute_list_adds(s: LexState, out: SpecAttributes)
    ensures
        exists|attrs: Seq<SpecAttribute>|
            #![trigger adds(out, attrs)]
            spec_attribute_list(s, out).1 == adds(out, attrs) && (spec_attribute_list(s, out).2 is Ok
                ==> attrs.len() > 0),
    decreases s.measure(),
{
    let (s1, r) = spec_parse_function_attribute(s);
    match r {
        Err(e) => {
            assert(adds(out, Seq::empty()) == out);
        },
        Ok(a) => {
            let out1 = out.add(a);
            lemma_adds_cons(out, a, Seq::empty());
            assert(seq![a] + Seq::<SpecAttribute>::empty() =~= seq![a]);
            assert(adds(out1, Seq::empty()) == out1);
            assert(adds(out, seq![a]) == out1);
            let (s2, r2) = spec_read(s1);
            if r2 matches Ok(SpecToken::Comma) {
                let (s3, r3) = spec_peek(s2);
                if r3 is Ok && !(r3 matches Ok(SpecToken::CloseBracket)) && s3.measure() < s.measure() {
                    law_attribute_list_adds(s3, out1);
                    let rest = choose|attrs: Seq<SpecAttribute>|
                        #![trigger adds(out1, attrs)]
                        spec_attribute_list(s3, out1).1 == adds(out1, attrs) && (spec_attribute_list(s3, out1).2 is Ok
                            ==> attrs.len() > 0);
                    lemma_adds_cons(out, a, rest);
                    assert(spec_attribute_list(s, out) == spec_attribute_list(s3, out1));
                    assert(spec_attribute_list(s, out).1 == adds(out, seq![a] + rest));
                }
            }
        },
    }
}

/// Groups of attribute lists add the attributes that they read to `out`, one
/// after another, and change nothing else.
pub proof fn law_function_attrs_adds(s: LexState, out: SpecAttributes)
    ensures
        exists|attrs: Seq<SpecAttribute>|
            #![trigger adds(out, attrs)]
            spec_parse_function_attrs(s, out).1 == adds(out, attrs),
    decreases s.measure(), 1nat,
{
    let (s1, r1) = spec_expect(s, SpecToken::Hash);
    let (s2, r2) = spec_expect(s1, SpecToken::OpenBracket);
    if r1 is Ok && r2 is Ok {
        law_attribute_list_adds(s2, out);
        let first = choose|attrs: Seq<SpecAttribute>|
            #![trigger adds(out, attrs)]
            spec_attribute_list(s2, out).1 == adds(out, attrs) && (spec_attribute_list(s2, out).2 is Ok
                ==> attrs.len() > 0);
        lemma_more_attrs_adds(s, spec_attribute_list(s2, out));
        let listed = spec_attribute_list(s2, out);
        let more = choose|attrs: Seq<SpecAttribute>|
            #![trigger adds(listed.1, attrs)]
            spec_more_attrs(s, listed).1 == adds(listed.1, attrs);
        lemma_adds_concat(out, first, more);
        assert(spec_parse_function_attrs(s, out).1 == adds(out, first + more));
    } else {
        assert(adds(out, Seq::empty()) == out);
    }
}

proof fn lemma_more_attrs_adds(
    s: LexState,
    listed: (LexState, SpecAttributes, Result<(), SpecParseError>),
)
    ensures
        exists|attrs: Seq<SpecAttribute>|
            #![trigger adds(listed.1, attrs)]
            spec_more_attrs(s, listed).1 == adds(listed.1, attrs),
    decreases s.measure(), 0nat,
{
    let (s3, out3, r3) = listed;
    assert(adds(out3, Seq::empty()) == out3);
    if r3 is Ok {
        let (s4, r4) = spec_peek(s3);
        if r4 matches Ok(SpecToken::Hash) {
            if s4.measure() < s.measure() {
                law_function_attrs_adds(s4, out3);
            }
        }
    }
}

/// A type read where the token held back, if any, has the shape of its kind
/// is never refused as an internal error: every name that the lexer gives is
/// non-empty and ASCII, as `Parser::lookup_type` requires.
pub proof fn law_type_names_are_ascii(s: LexState)
    requires
        cached_well_formed(s),
    ensures
        !(spec_parse_type(s).1 matches Err(SpecParseError::Internal(_, _))),
{
    lemma_peek_shape(s);
    let (s1, r) = spec_peek(s);
    match r {
        Ok(SpecToken::Identifier(name)) => {
            assert(is_identifier_text(name));
            assert(is_ascii_chars(name)) by {
                assert forall|i: int| 0 <= i < name.len() implies '\0' <= #[trigger] name[i] <= '\u{7f}' by {
                    if i > 0 {
                        assert(is_letter(name[i]) || is_digit(name[i]) || name[i] == '_');
                    }
                }
            }
        },
        Ok(_) => lemma_pointer_type_not_internal(s1),
        Err(_) => {},
    }
}

proof fn lemma_pointer_type_not_internal(s: LexState)
    ensures
        !(spec_pointer_type(s).1 matches Err(SpecParseError::Internal(_, _))),
    decreases s.measure(),
{
    let (s1, r) = spec_read(s);
    if r matches Ok(SpecToken::Asterisk) {
        let (s2, r2) = spec_read(s1);
        if r2 matches Ok(SpecToken::Constant) {
            if s2.measure() < s.measure() {
                lemma_pointer_type_not_internal(s2);
            }
        }
    }
}

/// Groups of attribute lists set exactly the flags of the attributes that
/// they read, on top of those set before: with [`law_union_flags_members`],
/// neither their order nor how often one is named matters.
pub proof fn law_function_attrs_union(s: LexState, out: SpecAttributes)
    ensures
        exists|attrs: Seq<SpecAttribute>|
            #![trigger union_flags(attrs)]
            spec_parse_function_attrs(s, out).1 == adds(out, attrs) && spec_parse_function_attrs(s, out).1.state
                == out.state | union_flags(attrs),
{
    law_function_attrs_adds(s, out);
    let attrs = choose|attrs: Seq<SpecAttribute>|
        #![trigger adds(out, attrs)]
        spec_parse_function_attrs(s, out).1 == adds(out, attrs);
    law_adds_union(out, attrs);
    assert(union_flags(attrs) == union_flags(attrs));
}

/// An attribute followed by a token other than `,` and `)` is refused with
/// that token as unexpected.
pub proof fn law_attribute_then_unexpected(s: LexState, out: SpecAttributes)
    requires
        spec_parse_function_attribute(s).1 is Ok,
        spec_read(spec_parse_function_attribute(s).0).1 matches Ok(t) && t != SpecToken::Comma && t
            != SpecToken::CloseBracket,
    ensures
        spec_attribute_list(s, out).2 == Err::<(), SpecParseError>(
            SpecParseError::UnexpectedToken(spec_read(spec_parse_function_attribute(s).0).1->Ok_0),
        ),
{
}

/// Attributes start with `#` and then `(`: another first or second token is
/// refused as unexpected, and no attribute is added.
pub proof fn law_attributes_open_with_hash_bracket(s: LexState, out: SpecAttributes, t: SpecToken)
    ensures
        spec_read(s).1 == Ok::<SpecToken, SpecParseError>(t) && t != SpecToken::Hash ==> spec_parse_function_attrs(
            s,
            out,
        ) == (spec_read(s).0, out, Err::<(), SpecParseError>(SpecParseError::UnexpectedToken(t))),
        spec_read(s).1 == Ok::<SpecToken, SpecParseError>(SpecToken::Hash) && spec_read(spec_read(s).0).1 == Ok::<
            SpecToken,
            SpecParseError,
        >(t) && t != SpecToken::OpenBracket ==> spec_parse_function_attrs(s, out) == (
            spec_read(spec_read(s).0).0,
            out,
            Err::<(), SpecParseError>(SpecParseError::UnexpectedToken(t)),
        ),
{
}

/// An integer literal, as the lexer gives it, is the number that its digits
/// spell where that fits in 128 bits; otherwise it is refused with
/// `IntegerLiteral`, and the literal stays unread.
pub proof fn law_integer_literal(s: LexState)
    requires
        cached_well_formed(s),
        spec_peek(s).1 is Ok,
        spec_peek(s).1->Ok_0 is Literal,
    ensures
        ({
            let (s1, r) = spec_peek(s);
            let digits = r->Ok_0->Literal_0;
            if decimal_value(digits) <= u128::MAX {
                spec_parse_primary_expr(s) == (
                    eaten(s1),
                    Ok::<SpecExpr, SpecParseError>(SpecExpr::IntegerLiteral(decimal_value(digits) as u128)),
                )
            } else {
                spec_parse_primary_expr(s) == (s1, Err::<SpecExpr, SpecParseError>(
                    SpecParseError::IntegerLiteral(digits),
                ))
            }
        }),
{
    reveal(spec_parse_primary_expr);
    lemma_peek_shape(s);
    let (s1, r) = spec_peek(s);
    let digits = r->Ok_0->Literal_0;
    assert(is_literal_text(digits));
    assert(digits[0] != '+');
    assert(unsigned_digits(digits) == digits);
    assert(all_decimal_digits(digits)) by {
        assert forall|i: int| 0 <= i < digits.len() implies is_decimal_digit(#[trigger] digits[i]) by {
            assert(is_digit(digits[i]));
        }
    }
}

// ---------------------------------------------------------------------------
// Operands of binary operators
// ---------------------------------------------------------------------------

/// A factor goes on left to right: after `acc`, a `*` or `/` and a unary
/// expression `b`, it goes on from `acc * b` or `acc / b`, with `acc` (read
/// first) on the left and `b` (read after the operator) on the right.
pub proof fn law_factor_operands_in_order(s: LexState, acc: SpecExpr)
    requires
        spec_peek(s).1 matches Ok(t) && (t is Asterisk || t is Slash),
        spec_parse_unary_expr(eaten(spec_peek(s).0)).1 is Ok,
        spec_parse_unary_expr(eaten(spec_peek(s).0)).0.measure() <= eaten(spec_peek(s).0).measure(),
    ensures
        ({
            let (s1, r) = spec_peek(s);
            let (s2, r2) = spec_parse_unary_expr(eaten(s1));
            let b = r2->Ok_0;
            spec_factor_loop(s, acc) == spec_factor_loop(
                s2,
                if r->Ok_0 is Slash {
                    SpecExpr::Div(Box::new(acc), Box::new(b))
                } else {
                    SpecExpr::Mul(Box::new(acc), Box::new(b))
                },
            )
        }),
{
    reveal(spec_factor_loop);
    reveal(spec_parse_unary_expr);
    lemma_peek_token_measure(s);
}

/// A term goes on left to right: after `acc`, a `+` or `-` and a factor `b`,
/// it goes on from `acc + b` or `acc - b`, with `acc` (read first) on the left
/// and `b` (read after the operator) on the right.
pub proof fn law_term_operands_in_order(s: LexState, acc: SpecExpr)
    requires
        spec_peek(s).1 matches Ok(t) && (t is Plus || t is Minus),
        spec_parse_factor_expr(eaten(spec_peek(s).0)).1 is Ok,
        spec_parse_factor_expr(eaten(spec_peek(s).0)).0.measure() <= eaten(spec_peek(s).0).measure(),
    ensures
        ({
            let (s1, r) = spec_peek(s);
            let (s2, r2) = spec_parse_factor_expr(eaten(s1));
            let b = r2->Ok_0;
            spec_term_loop(s, acc) == spec_term_loop(
                s2,
                if r->Ok_0 is Minus {
                    SpecExpr::Sub(Box::new(acc), Box::new(b))
                } else {
                    SpecExpr::Add(Box::new(acc), Box::new(b))
                },
            )
        }),
{
    reveal(spec_term_loop);
    reveal(spec_parse_factor_expr);
    lemma_peek_token_measure(s);
}

/// Where the source at `s` is a unary expression `a`, a `/` or `*`, a unary
/// expression `b`, and then a token that ends the factor, the factor is
/// `a / b` (dividend `a`, divisor `b`) or `a * b`.
pub proof fn law_quotient_and_product(s: LexState)
    requires
        spec_parse_unary_expr(s).1 is Ok,
        spec_parse_unary_expr(s).0.measure() <= s.measure(),
        spec_peek(spec_parse_unary_expr(s).0).1 matches Ok(t) && (t is Asterisk || t is Slash),
        spec_parse_unary_expr(eaten(spec_peek(spec_parse_unary_expr(s).0).0)).1 is Ok,
        spec_parse_unary_expr(eaten(spec_peek(spec_parse_unary_expr(s).0).0)).0.measure() <= eaten(
            spec_peek(spec_parse_unary_expr(s).0).0,
        ).measure(),
        spec_peek(spec_parse_unary_expr(eaten(spec_peek(spec_parse_unary_expr(s).0).0)).0).1 matches Ok(u)
            && !(u is Asterisk || u is Slash) && !is_erroneous_follower(u),
    ensures
        ({
            let (s1, ra) = spec_parse_unary_expr(s);
            let (s2, rop) = spec_peek(s1);
            let (s3, rb) = spec_parse_unary_expr(eaten(s2));
            let a = ra->Ok_0;
            let b = rb->Ok_0;
            spec_parse_factor_expr(s) == (
                spec_peek(s3).0,
                Ok::<SpecExpr, SpecParseError>(
                    if rop->Ok_0 is Slash {
                        SpecExpr::Div(Box::new(a), Box::new(b))
                    } else {
                        SpecExpr::Mul(Box::new(a), Box::new(b))
                    },
                ),
            )
        }),
{
    reveal(spec_parse_factor_expr);
    reveal(spec_parse_unary_expr);
    let (s1, ra) = spec_parse_unary_expr(s);
    let (s2, rop) = spec_peek(s1);
    let (s3, rb) = spec_parse_unary_expr(eaten(s2));
    let a = ra->Ok_0;
    let b = rb->Ok_0;
    law_factor_operands_in_order(s1, a);
    let e = if rop->Ok_0 is Slash {
        SpecExpr::Div(Box::new(a), Box::new(b))
    } else {
        SpecExpr::Mul(Box::new(a), Box::new(b))
    };
    reveal(spec_factor_loop);
    assert(spec_factor_loop(s3, e) == (spec_peek(s3).0, Ok::<SpecExpr, SpecParseError>(e)));
}

/// Where the source at `s` is a factor `a`, a `-` or `+`, a factor `b`, and
/// then a token that ends the term, the term is `a - b` (minuend `a`,
/// subtrahend `b`) or `a + b`.
pub proof fn law_difference_and_sum(s: LexState)
    requires
        spec_parse_factor_expr(s).1 is Ok,
        spec_parse_factor_expr(s).0.measure() <= s.measure(),
        spec_peek(spec_parse_factor_expr(s).0).1 matches Ok(t) && (t is Plus || t is Minus),
        spec_parse_factor_expr(eaten(spec_peek(spec_parse_factor_expr(s).0).0)).1 is Ok,
        spec_parse_factor_expr(eaten(spec_peek(spec_parse_factor_expr(s).0).0)).0.measure() <= eaten(
            spec_peek(spec_parse_factor_expr(s).0).0,
        ).measure(),
        spec_peek(spec_parse_factor_expr(eaten(spec_peek(spec_parse_factor_expr(s).0).0)).0).1 matches Ok(u)
            && !(u is Plus || u is Minus) && !is_erroneous_follower(u),
    ensures
        ({
            let (s1, ra) = spec_parse_factor_expr(s);
            let (s2, rop) = spec_peek(s1);
            let (s3, rb) = spec_parse_factor_expr(eaten(s2));
            let a = ra->Ok_0;
            let b = rb->Ok_0;
            spec_parse_term_expr(s) == (
                spec_peek(s3).0,
                Ok::<SpecExpr, SpecParseError>(
                    if rop->Ok_0 is Minus {
                        SpecExpr::Sub(Box::new(a), Box::new(b))
                    } else {
                        SpecExpr::Add(Box::new(a), Box::new(b))
                    },
                ),
            )
        }),
{
    reveal(spec_parse_term_expr);
    reveal(spec_parse_factor_expr);
    let (s1, ra) = spec_parse_factor_expr(s);
    let (s2, rop) = spec_peek(s1);
    let (s3, rb) = spec_parse_factor_expr(eaten(s2));
    let a = ra->Ok_0;
    let b = rb->Ok_0;
    law_term_operands_in_order(s1, a);
    let e = if rop->Ok_0 is Minus {
        SpecExpr::Sub(Box::new(a), Box::new(b))
    } else {
        SpecExpr::Add(Box::new(a), Box::new(b))
    };
    reveal(spec_term_loop);
    assert(spec_term_loop(s3, e) == (spec_peek(s3).0, Ok::<SpecExpr, SpecParseError>(e)));
}

/// An integer type is named by `u` (unsigned) or `i` (signed) followed by its
/// number of bits in decimal: `u32` is the unsigned integer of 32 bits, `i8`
/// the signed one of 8 bits, for each of 8, 16, 32, 64 and 128 bits.
#[verifier::spinoff_prover]
pub proof fn law_integer_type_names(sign: char, bits: u32)
    requires
        sign == 'u' || sign == 'i',
        bits == 8 || bits == 16 || bits == 32 || bits == 64 || bits == 128,
    ensures
        spec_lookup_type(seq![sign] + decimal_text(bits as nat)) matches Ok(Type::Integer { width, is_unsigned })
            && spec_integer_bits(width) == Some(bits) && (is_unsigned <==> sign == 'u'),
{
    reveal_with_fuel(decimal_text, 4);
    reveal_strlit("void");
    reveal_strlit("bool");
    reveal_strlit("u8");
    reveal_strlit("i8");
    reveal_strlit("u16");
    reveal_strlit("i16");
    reveal_strlit("u32");
    reveal_strlit("i32");
    reveal_strlit("u64");
    reveal_strlit("i64");
    reveal_strlit("u128");
    reveal_strlit("i128");
    let digits = decimal_text(bits as nat);
    if bits == 8 {
        assert(digits =~= seq!['8']);
    } else if bits == 16 {
        assert(digits =~= seq!['1', '6']);
    } else if bits == 32 {
        assert(digits =~= seq!['3', '2']);
    } else if bits == 64 {
        assert(digits =~= seq!['6', '4']);
    } else {
        assert(decimal_text(12) =~= seq!['1', '2']);
        assert(digits =~= seq!['1', '2', '8']);
    }
    let name = seq![sign] + digits;
    assert(name.len() > 0);
    assert(is_ascii_chars(name));
    assert(name[0] == sign);
    assert(name != "void"@ && name != "bool"@) by {
        assert("void"@[0] == 'v' && "bool"@[0] == 'b');
    }
    if bits == 8 {
        assert(name.len() == 2);
    } else if bits == 16 {
        assert(name.len() == 3 && name[1] == '1');
        assert(name != "u8"@ && name != "i8"@);
    } else if bits == 32 {
        assert(name.len() == 3 && name[1] == '3');
        assert("u16"@[1] == '1' && "i16"@[1] == '1');
        assert(name != "u16"@ && name != "i16"@);
    } else if bits == 64 {
        assert(name.len() == 3 && name[1] == '6');
        assert("u16"@[1] == '1' && "i16"@[1] == '1' && "u32"@[1] == '3' && "i32"@[1] == '3');
        assert(name != "u16"@ && name != "i16"@ && name != "u32"@ && name != "i32"@);
    } else {
        assert(name.len() == 4);
    }
    if sign == 'u' {
        assert(name != "i8"@ && name != "i16"@ && name != "i32"@ && name != "i64"@ && name != "i128"@) by {
            assert("i8"@[0] == 'i' && "i16"@[0] == 'i' && "i32"@[0] == 'i' && "i64"@[0] == 'i' && "i128"@[0] == 'i');
        }
    } else {
        assert(name != "u8"@ && name != "u16"@ && name != "u32"@ && name != "u64"@ && name != "u128"@) by {
            assert("u8"@[0] == 'u' && "u16"@[0] == 'u' && "u32"@[0] == 'u' && "u64"@[0] == 'u' && "u128"@[0] == 'u');
        }
    }
    if bits == 8 {
        if sign == 'u' { assert(name =~= "u8"@); } else { assert(name =~= "i8"@); }
    } else if bits == 16 {
        if sign == 'u' { assert(name =~= "u16"@); } else { assert(name =~= "i16"@); }
    } else if bits == 32 {
        if sign == 'u' { assert(name =~= "u32"@); } else { assert(name =~= "i32"@); }
    } else if bits == 64 {
        if sign == 'u' { assert(name =~= "u64"@); } else { assert(name =~= "i64"@); }
    } else {
        if sign == 'u' { assert(name =~= "u128"@); } else { assert(name =~= "i128"@); }
    }
}

/// An integer type is unsigned exactly when its name starts with `u`.
pub proof fn law_integer_signedness(name: Seq<char>)
    ensures
        spec_lookup_type(name) matches Ok(Type::Integer { is_unsigned, .. }) ==> (is_unsigned <==> name[0] == 'u'),
{
}

/// The number of bits of a floating-point kind.
pub open spec fn float_bits(kind: FloatKind) -> nat {
    match kind {
        FloatKind::Half => 16,
        FloatKind::BrainHalf => 16,
        FloatKind::Single => 32,
        FloatKind::Double => 64,
        FloatKind::Quad => 128,
    }
}

/// A floating-point type is named by `f` and its number of bits in decimal
/// (`f16`, `f32`, `f64`, `f128`, the IEEE kinds of that size), and `b16`
/// names bfloat16.
#[verifier::spinoff_prover]
pub proof fn law_float_type_names(bits: u32)
    requires
        bits == 16 || bits == 32 || bits == 64 || bits == 128,
    ensures
        spec_lookup_type(seq!['f'] + decimal_text(bits as nat)) matches Ok(Type::Float(kind)) && float_bits(kind)
            == bits && kind != FloatKind::BrainHalf,
        spec_lookup_type(seq!['b', '1', '6']) == Ok::<Type, SpecParseError>(Type::Float(FloatKind::BrainHalf)),
{
    reveal_with_fuel(decimal_text, 4);
    reveal_strlit("void");
    reveal_strlit("bool");
    reveal_strlit("u8");
    reveal_strlit("i8");
    reveal_strlit("u16");
    reveal_strlit("i16");
    reveal_strlit("u32");
    reveal_strlit("i32");
    reveal_strlit("u64");
    reveal_strlit("i64");
    reveal_strlit("u128");
    reveal_strlit("i128");
    reveal_strlit("usize");
    reveal_strlit("isize");
    reveal_strlit("f16");
    reveal_strlit("b16");
    reveal_strlit("f32");
    reveal_strlit("f64");
    reveal_strlit("f128");
    let digits = decimal_text(bits as nat);
    if bits == 16 {
        assert(digits =~= seq!['1', '6']);
    } else if bits == 32 {
        assert(digits =~= seq!['3', '2']);
    } else if bits == 64 {
        assert(digits =~= seq!['6', '4']);
    } else {
        assert(decimal_text(12) =~= seq!['1', '2']);
        assert(digits =~= seq!['1', '2', '8']);
    }
    let name = seq!['f'] + digits;
    assert(name[0] == 'f');
    assert(is_ascii_chars(name));
    assert("void"@[0] == 'v' && "bool"@[0] == 'b' && "u8"@[0] == 'u' && "i8"@[0] == 'i' && "u16"@[0] == 'u'
        && "i16"@[0] == 'i' && "u32"@[0] == 'u' && "i32"@[0] == 'i' && "u64"@[0] == 'u' && "i64"@[0] == 'i'
        && "u128"@[0] == 'u' && "i128"@[0] == 'i' && "usize"@[0] == 'u' && "isize"@[0] == 'i' && "b16"@[0]
        == 'b');
    assert(name != "void"@ && name != "bool"@ && name != "u8"@ && name != "i8"@ && name != "u16"@ && name
        != "i16"@ && name != "u32"@ && name != "i32"@ && name != "u64"@ && name != "i64"@ && name != "u128"@
        && name != "i128"@ && name != "usize"@ && name != "isize"@ && name != "b16"@);
    if bits == 16 {
        assert(name =~= "f16"@);
    } else if bits == 32 {
        assert("f16"@[1] == '1');
        assert(name != "f16"@);
        assert(name =~= "f32"@);
    } else if bits == 64 {
        assert("f16"@[1] == '1' && "f32"@[1] == '3');
        assert(name != "f16"@ && name != "f32"@);
        assert(name =~= "f64"@);
    } else {
        assert(name.len() == 4);
        assert(name =~= "f128"@);
    }
    let b = seq!['b', '1', '6'];
    assert(b =~= "b16"@);
    assert(is_ascii_chars(b));
    assert(b != "void"@ && b != "bool"@) by {
        assert("void"@[0] == 'v' && "bool"@[1] == 'o');
    }
    assert(b != "u8"@ && b != "i8"@ && b != "u16"@ && b != "i16"@ && b != "u32"@ && b != "i32"@ && b != "u64"@
        && b != "i64"@ && b != "u128"@ && b != "i128"@ && b != "usize"@ && b != "isize"@ && b != "f16"@) by {
        assert("f16"@[0] == 'f');
    }
}

/// A purity attribute `unsafe ( WORD )` says that the function is pure
/// exactly when `WORD` is `pure`.
pub proof fn law_purity_word(s: LexState)
    requires
        spec_parse_function_attribute(s).1 matches Ok(SpecAttribute::Purity(_)),
    ensures
        spec_read(s).1 == Ok::<SpecToken, SpecParseError>(SpecToken::Unsafe),
        spec_read(spec_expect(spec_read(s).0, SpecToken::OpenBracket).0).1 matches Ok(SpecToken::Identifier(word))
            && (spec_parse_function_attribute(s).1->Ok_0->Purity_0 <==> word == "pure"@),
{
    reveal_strlit("pure");
    reveal_strlit("impure");
    assert("pure"@ != "impure"@) by {
        assert("pure"@.len() == 4 && "impure"@.len() == 6);
    }
}

} // verus!

//! The parser: a recursive-descent reader of declarations, statements and
//! expressions over the token stream of a [`Lexer`].
pub mod fn_attrs;
pub mod function;
pub mod modifiers;
pub mod spec;

use vstd::prelude::*;
use vstd::string::*;
use vstd::utf8::is_ascii_chars;

use crate::errors::{parsing_ice, unexpected, ParseError, SpecParseError};
use crate::lexer::{
    Lexer, LexState, SpecToken, Token, lemma_peek_cached, lemma_peek_token_measure, lemma_read_cached,
    lemma_read_token_measure, lemma_try_eat_shebang_measure,
};
use crate::parser::fn_attrs::{Attribute, Attributes, SpecAttribute, SpecAttributes};
use crate::parser::function::{FunctionDeclaration, SpecFunctionDeclaration, parameters_view};
use crate::parser::modifiers::{MOD_CONSTANT, MOD_EXTERNAL, MOD_PRIVATE, MOD_UNSAFE, Modifiers};
use crate::parser::spec::{
    attribute_result, body_result, lemma_block_view, lemma_call_view, lemma_expr_view, lemma_stmt_view, copy_result, eaten, expr_result, expr_view, exprs_view,
    parameters_result, spec_argument_list, spec_attribute_list, spec_block_head, spec_block_loop,
    spec_declaration, spec_declaration_end, spec_declaration_modifiers, spec_expect, spec_factor_loop,
    spec_lookup_type, spec_more_attrs, spec_parameter_list, spec_parse_assignment_stmt, spec_parse_block_body,
    spec_parse_block_expr, spec_parse_expr, spec_parse_factor_expr, spec_parse_function_attribute,
    spec_parse_function_attrs, spec_parse_function_call_expr, spec_parse_function_parameters,
    spec_parse_primary_expr, spec_parse_stmt, spec_parse_term_expr, spec_parse_top_level,
    spec_parse_type, spec_parse_unary_expr, spec_parse_unit_stmt, spec_parse_variable_stmt,
    spec_peek, spec_pointer_type, spec_read, spec_read_identifier, spec_return_type, spec_term_loop,
    spec_try_extern, spec_try_unsafe_extern, stmt_result, stmt_view, stmts_view, string_result,
    token_ref_result, token_result, top_level_result, top_level_view, unary_of, unit_result,
    is_erroneous_follower, without_last, SpecExpr, SpecStmt, SpecTopLevel,
};
use crate::text::{parse_unsigned_numeral, push_char, str_equals};
use crate::types::{FloatKind, IntegerWidth, Type};

verus! {

/// `topLevel : functionDecl ;`
#[must_use]
#[derive(Debug, PartialEq)]
pub enum TopLevel {
    Function(FunctionDeclaration),
}

/// `stmt : variableStmt | assignmentStmt | unitStmt ;`
#[must_use]
#[derive(Debug)]
pub enum Stmt {
    /// `variableStmt : VAL IDENTIFIER ( EQUALS unitStmt | SEMICOLON ) ;`
    Variable(String, Option<Expr>),
    /// `assignmentStmt : IDENTIFIER EQUALS unitStmt ;`
    Assignment(String, Expr),
    /// `unitStmt : expr SEMICOLON ;`
    Unit(Expr),
}

/// `expr : addExpr | subExpr | mulExpr | divExpr | unaryExpr | functionCallExpr | variableRefExpr | blockExpr ;`
#[must_use]
#[derive(Debug)]
pub enum Expr {
    /// `addExpr : expr PLUS expr ;`
    Add(Box<Expr>, Box<Expr>),
    /// `subExpr : expr MINUS expr ;`
    Sub(Box<Expr>, Box<Expr>),
    /// `mulExpr : expr ASTERISK expr ;`
    Mul(Box<Expr>, Box<Expr>),
    /// `divExpr : expr SLASH expr ;`
    Div(Box<Expr>, Box<Expr>),
    /// `unaryExpr : ( MINUS | EXCLAMATION_MARK | ASTERISK | AMPERSAND ) expr ;`
    Unary(Unary, Box<Expr>),
    /// `functionCallExpr : IDENTIFIER OPEN_BRACKET ( expr ( COMMA expr )* )? CLOSE_BRACKET ;`
    FunctionCall(String, Vec<Expr>),
    /// `variableRefExpr : IDENTIFIER ;`
    VariableRef(String),
    /// `blockExpr : ( CONSTANT? UNSAFE? )? OPEN_CURLY stmt* expr CLOSE_CURLY ;`
    Block(Modifiers, Vec<Stmt>, Box<Expr>),
    /// An integer literal.
    IntegerLiteral(u128),
    /// A floating-point literal: the digits and period of its text, without
    /// the `f` suffix.
    FloatLiteral(String),
}

/// The operators of a term.
#[derive(Debug, Clone, Copy, PartialEq, Eq, Structural)]
pub enum Term {
    /// `+`
    Add,
    /// `-`
    Sub,
}

/// The operators of a factor.
#[derive(Debug, Clone, Copy, PartialEq, Eq, Structural)]
pub enum Factor {
    /// `*`
    Mul,
    /// `/`
    Div,
}

/// The prefix operators.
#[derive(Debug, Clone, Copy, PartialEq, Eq, Structural)]
pub enum Unary {
    /// `-`
    Minus,
    /// `!`
    Negate,
    /// `*`
    Ptr,
    /// `&`
    Ref,
}

/// Whether the two tokens are the same.
pub fn same_token(a: &Token, b: &Token) -> (res: bool)
    ensures
        res == (a@ == b@),
{
    match (a, b) {
        (Token::Identifier(x), Token::Identifier(y)) => str_equals(x.as_str(), y.as_str()),
        (Token::Literal(x), Token::Literal(y)) => str_equals(x.as_str(), y.as_str()),
        (Token::Real(x), Token::Real(y)) => str_equals(x.as_str(), y.as_str()),
        (Token::Function, Token::Function) => true,
        (Token::Unsafe, Token::Unsafe) => true,
        (Token::External, Token::External) => true,
        (Token::Constant, Token::Constant) => true,
        (Token::Private, Token::Private) => true,
        (Token::Return, Token::Return) => true,
        (Token::Val, Token::Val) => true,
        (Token::Cold, Token::Cold) => true,
        (Token::Hot, Token::Hot) => true,
        (Token::StrictFloatingPoint, Token::StrictFloatingPoint) => true,
        (Token::TryInline, Token::TryInline) => true,
        (Token::ForceInline, Token::ForceInline) => true,
        (Token::OpenCurlyBracket, Token::OpenCurlyBracket) => true,
        (Token::CloseCurlyBracket, Token::CloseCurlyBracket) => true,
        (Token::OpenBracket, Token::OpenBracket) => true,
        (Token::CloseBracket, Token::CloseBracket) => true,
        (Token::OpenSquareBracket, Token::OpenSquareBracket) => true,
        (Token::CloseSquareBracket, Token::CloseSquareBracket) => true,
        (Token::Semicolon, Token::Semicolon) => true,
        (Token::Colon, Token::Colon) => true,
        (Token::Slash, Token::Slash) => true,
        (Token::Asterisk, Token::Asterisk) => true,
        (Token::Plus, Token::Plus) => true,
        (Token::Minus, Token::Minus) => true,
        (Token::Ampersand, Token::Ampersand) => true,
        (Token::Comma, Token::Comma) => true,
        (Token::Equals, Token::Equals) => true,
        (Token::ExclamationMark, Token::ExclamationMark) => true,
        (Token::Hash, Token::Hash) => true,
        _ => false,
    }
}

fn is_erroneous(t: &Token) -> (res: bool)
    ensures
        res == is_erroneous_follower(t@),
{
    match t {
        Token::Identifier(_) | Token::Literal(_) | Token::Real(_) | Token::Function
        | Token::Unsafe | Token::External | Token::Constant | Token::Return | Token::Val
        | Token::OpenCurlyBracket | Token::OpenBracket | Token::OpenSquareBracket | Token::Colon
        | Token::ExclamationMark => true,
        _ => false,
    }
}

fn unary_op(t: &Token) -> (res: Option<Unary>)
    ensures
        res == unary_of(t@),
{
    match t {
        Token::Minus => Some(Unary::Minus),
        Token::ExclamationMark => Some(Unary::Negate),
        Token::Asterisk => Some(Unary::Ptr),
        Token::Ampersand => Some(Unary::Ref),
        _ => None,
    }
}

/// Reads declarations and expressions from a [`Lexer`].
pub struct Parser {
    lexer: Lexer,
}

impl View for Parser {
    type V = LexState;

    closed spec fn view(&self) -> LexState {
        self.lexer@
    }
}

impl Parser {
    /// A parser over `lexer`.
    pub fn new(lexer: Lexer) -> (res: Self)
        ensures
            res@ == lexer@,
    {
        Parser { lexer }
    }

    /// A parser at the start of `source`.
    pub fn from(source: Vec<u8>) -> (res: Self)
        ensures
            res@ == (LexState { input: source@, pos: 0, cached: None, pending: Seq::empty() }),
    {
        Parser { lexer: Lexer::new(source) }
    }

    fn peek(&mut self) -> (res: Result<&Token, ParseError>)
        ensures
            (final(self)@, token_ref_result(res)) == spec_peek(old(self)@),
            final(self)@.measure() <= old(self)@.measure(),
            res is Ok ==> final(self)@.cached is Some,
            res matches Ok(t) ==> final(self)@.cached == Some(t@),
            res is Ok ==> eaten(final(self)@).measure() < old(self)@.measure(),
            old(self)@.cached is Some ==> final(self)@ == old(self)@ && token_ref_result(res) == Ok::<
                SpecToken,
                SpecParseError,
            >(old(self)@.cached->0),
    {
        proof {
            lemma_peek_token_measure(self@);
            if self@.cached is Some {
                lemma_peek_cached(self@);
            }
        }
        match self.lexer.peek_token() {
            Ok(t) => Ok(t),
            Err(e) => Err(ParseError::Lexer(e)),
        }
    }

    /// Consumes the token held back by a peek.
    fn eat(&mut self)
        requires
            old(self)@.cached is Some,
        ensures
            final(self)@ == eaten(old(self)@),
            final(self)@.measure() < old(self)@.measure(),
    {
        proof {
            lemma_read_cached(self@);
        }
        let _ = self.lexer.read_token();
    }

    fn read(&mut self) -> (res: Result<Token, ParseError>)
        ensures
            (final(self)@, token_result(res)) == spec_read(old(self)@),
            final(self)@.measure() <= old(self)@.measure(),
            res is Ok ==> final(self)@.measure() < old(self)@.measure(),
            final(self)@.cached is None,
    {
        proof {
            lemma_read_token_measure(self@);
        }
        match self.lexer.read_token() {
            Ok(t) => Ok(t),
            Err(e) => Err(ParseError::Lexer(e)),
        }
    }

    /// Reads the token held back by a peek.
    fn take_peeked(&mut self) -> (res: Token)
        requires
            old(self)@.cached is Some,
        ensures
            final(self)@ == eaten(old(self)@),
            Some(res@) == old(self)@.cached,
            final(self)@.measure() < old(self)@.measure(),
    {
        proof {
            lemma_read_cached(self@);
        }
        match self.lexer.read_token() {
            Ok(t) => t,
            Err(_) => Token::Hash,
        }
    }

    fn expect(&mut self, expected: Token) -> (res: Result<(), ParseError>)
        ensures
            (final(self)@, unit_result(res)) == spec_expect(old(self)@, expected@),
            final(self)@.measure() <= old(self)@.measure(),
            res is Ok ==> final(self)@.measure() < old(self)@.measure(),
    {
        let t = self.read()?;
        if same_token(&t, &expected) {
            Ok(())
        } else {
            Err(unexpected(t))
        }
    }

    fn read_identifier(&mut self) -> (res: Result<String, ParseError>)
        ensures
            (final(self)@, string_result(res)) == spec_read_identifier(old(self)@),
            final(self)@.measure() <= old(self)@.measure(),
            res is Ok ==> final(self)@.measure() < old(self)@.measure(),
    {
        match self.read()? {
            Token::Identifier(name) => Ok(name),
            t => Err(unexpected(t)),
        }
    }

    /// The built-in type that `identifier`, a non-empty ASCII name, names.
    /// Named (custom) types are not supported yet: any other name is refused
    /// with `CustomType`, on which the driver stops.
    pub fn lookup_type(&self, identifier: &str) -> (res: Result<Type, ParseError>)
        requires
            identifier@.len() > 0,
            is_ascii_chars(identifier@),
        ensures
            copy_result(res) == spec_lookup_type(identifier@),
    {
        let is_unsigned = identifier.get_char(0) == 'u';
        if str_equals(identifier, "void") {
            Ok(Type::Void)
        } else if str_equals(identifier, "bool") {
            Ok(Type::Boolean)
        } else if str_equals(identifier, "u8") || str_equals(identifier, "i8") {
            Ok(Type::Integer { width: IntegerWidth::W8, is_unsigned })
        } else if str_equals(identifier, "u16") || str_equals(identifier, "i16") {
            Ok(Type::Integer { width: IntegerWidth::W16, is_unsigned })
        } else if str_equals(identifier, "u32") || str_equals(identifier, "i32") {
            Ok(Type::Integer { width: IntegerWidth::W32, is_unsigned })
        } else if str_equals(identifier, "u64") || str_equals(identifier, "i64") {
            Ok(Type::Integer { width: IntegerWidth::W64, is_unsigned })
        } else if str_equals(identifier, "u128") || str_equals(identifier, "i128") {
            Ok(Type::Integer { width: IntegerWidth::W128, is_unsigned })
        } else if str_equals(identifier, "usize") || str_equals(identifier, "isize") {
            Ok(Type::Integer { width: IntegerWidth::Size, is_unsigned })
        } else if str_equals(identifier, "f16") {
            Ok(Type::Float(FloatKind::Half))
        } else if str_equals(identifier, "b16") {
            Ok(Type::Float(FloatKind::BrainHalf))
        } else if str_equals(identifier, "f32") {
            Ok(Type::Float(FloatKind::Single))
        } else if str_equals(identifier, "f64") {
            Ok(Type::Float(FloatKind::Double))
        } else if str_equals(identifier, "f128") {
            Ok(Type::Float(FloatKind::Quad))
        } else {
            Err(ParseError::CustomType(identifier.to_owned()))
        }
    }

    /// `type : IDENTIFIER | ( '*' 'const' )+ IDENTIFIER ;`
    pub fn parse_type(&mut self) -> (res: Result<Type, ParseError>)
        ensures
            (final(self)@, copy_result(res)) == spec_parse_type(old(self)@),
            final(self)@.measure() <= old(self)@.measure(),
            res is Ok ==> final(self)@.measure() < old(self)@.measure(),
    {
        let is_identifier = match self.peek()? {
            Token::Identifier(_) => true,
            _ => false,
        };
        if is_identifier {
            let name = match self.take_peeked() {
                Token::Identifier(name) => name,
                _ => return Err(parsing_ice()),
            };
            // The lexer gives no other name: see `law_type_names_are_ascii`.
            if name.as_str().unicode_len() == 0 || !name.as_str().is_ascii() {
                return Err(parsing_ice());
            }
            return self.lookup_type(name.as_str());
        }
        let ghost start = self@;
        loop
            invariant
                spec_pointer_type(self@) == spec_pointer_type(start),
                spec_parse_type(old(self)@) == spec_pointer_type(start),
                self@.measure() <= old(self)@.measure(),
            decreases self@.measure(),
        {
            let ghost s = self@;
            match self.read()? {
                Token::Identifier(_) => return Ok(Type::Ptr),
                Token::Asterisk => match self.read()? {
                    Token::Constant => {},
                    t => return Err(unexpected(t)),
                },
                t => return Err(unexpected(t)),
            }
        }
    }

    /// One attribute: `'cold' | 'hot' | 'strictfp' | 'try_inline' | 'force_inline'
    /// | 'method' '[' IDENTIFIER ']' | 'unsafe' '(' ( 'pure' | 'impure' ) ')'`.
    pub fn parse_function_attribute(&mut self) -> (res: Result<Attribute, ParseError>)
        ensures
            (final(self)@, attribute_result(res)) == spec_parse_function_attribute(old(self)@),
            final(self)@.measure() <= old(self)@.measure(),
            res is Ok ==> final(self)@.measure() < old(self)@.measure(),
    {
        let token = self.read()?;
        match token {
            Token::Identifier(name) => {
                if str_equals(name.as_str(), "cold") {
                    Ok(Attribute::Cold)
                } else if str_equals(name.as_str(), "hot") {
                    Ok(Attribute::Hot)
                } else if str_equals(name.as_str(), "strictfp") {
                    Ok(Attribute::Strictfp)
                } else if str_equals(name.as_str(), "try_inline") {
                    Ok(Attribute::TryInline)
                } else if str_equals(name.as_str(), "force_inline") {
                    Ok(Attribute::ForceInline)
                } else if str_equals(name.as_str(), "method") {
                    self.expect(Token::OpenSquareBracket)?;
                    let attached_type = self.read_identifier()?;
                    self.expect(Token::CloseSquareBracket)?;
                    Ok(Attribute::Method(attached_type))
                } else {
                    Err(unexpected(Token::Identifier(name)))
                }
            },
            Token::Unsafe => {
                self.expect(Token::OpenBracket)?;
                let attribute = match self.read()? {
                    Token::Identifier(word) => {
                        if str_equals(word.as_str(), "pure") {
                            Attribute::Purity(true)
                        } else if str_equals(word.as_str(), "impure") {
                            Attribute::Purity(false)
                        } else {
                            return Err(unexpected(Token::Identifier(word)));
                        }
                    },
                    t => return Err(unexpected(t)),
                };
                self.expect(Token::CloseBracket)?;
                Ok(attribute)
            },
            t => Err(unexpected(t)),
        }
    }

    /// `attributes : ( '#' '(' attribute ( ',' attribute )* ','? ')' )+ ;`, adding
    /// each attribute to `output`.
    pub fn parse_function_attrs(&mut self, output: &mut Attributes) -> (res: Result<(), ParseError>)
        ensures
            (final(self)@, final(output)@, unit_result(res)) == spec_parse_function_attrs(
                old(self)@,
                old(output)@,
            ),
            final(self)@.measure() <= old(self)@.measure(),
            old(output)@.wf() ==> final(output)@.wf(),
        decreases old(self)@.measure(),
    {
        self.expect(Token::Hash)?;
        self.expect(Token::OpenBracket)?;
        self.attribute_list(output)?;
        let more = match self.peek()? {
            Token::Hash => true,
            _ => false,
        };
        if more {
            self.parse_function_attrs(output)?;
        }
        Ok(())
    }

    /// `attribute ( ',' attribute )* ','? ')'`, adding each attribute to `output`.
    fn attribute_list(&mut self, output: &mut Attributes) -> (res: Result<(), ParseError>)
        ensures
            (final(self)@, final(output)@, unit_result(res)) == spec_attribute_list(
                old(self)@,
                old(output)@,
            ),
            final(self)@.measure() <= old(self)@.measure(),
            old(output)@.wf() ==> final(output)@.wf(),
        decreases old(self)@.measure(),
    {
        let attribute = match self.parse_function_attribute() {
            Ok(a) => a,
            Err(e) => return Err(e),
        };
        output.bitor_assign(attribute);
        match self.read() {
            Err(e) => Err(e),
            Ok(Token::Comma) => {
                let close = match self.peek() {
                    Err(e) => return Err(e),
                    Ok(t) => match t {
                        Token::CloseBracket => true,
                        _ => false,
                    },
                };
                if close {
                    self.eat();
                    Ok(())
                } else {
                    self.attribute_list(output)
                }
            },
            Ok(Token::CloseBracket) => Ok(()),
            Ok(t) => Err(unexpected(t)),
        }
    }

    /// `parameters : '(' ( IDENTIFIER ':' type ','? )* ')' ;`
    pub fn parse_function_parameters(&mut self) -> (res: Result<Vec<(String, Type)>, ParseError>)
        ensures
            (final(self)@, parameters_result(res)) == spec_parse_function_parameters(old(self)@),
            final(self)@.measure() <= old(self)@.measure(),
    {
        self.expect(Token::OpenBracket)?;
        let close = match self.peek()? {
            Token::CloseBracket => true,
            _ => false,
        };
        if close {
            self.eat();
            let res: Vec<(String, Type)> = Vec::new();
            assert(parameters_view(res@) =~= Seq::<(Seq<char>, Type)>::empty());
            return Ok(res);
        }
        let result: Vec<(String, Type)> = Vec::new();
        assert(parameters_view(result@) =~= Seq::<(Seq<char>, Type)>::empty());
        self.parameter_list(result)
    }

    /// `( IDENTIFIER ':' type ','? )* ')'` after the parameters `result`.
    fn parameter_list(&mut self, result: Vec<(String, Type)>) -> (res: Result<Vec<(String, Type)>, ParseError>)
        ensures
            (final(self)@, parameters_result(res)) == spec_parameter_list(
                old(self)@,
                parameters_view(result@),
            ),
            final(self)@.measure() <= old(self)@.measure(),
        decreases old(self)@.measure(),
    {
        let mut result = result;
        let ghost s = self@;
        let is_identifier = match self.peek()? {
            Token::Identifier(_) => true,
            _ => false,
        };
        if !is_identifier {
            self.expect(Token::CloseBracket)?;
            return Ok(result);
        }
        let identifier = match self.take_peeked() {
            Token::Identifier(name) => name,
            _ => return Err(parsing_ice()),
        };
        self.expect(Token::Colon)?;
        let param_type = self.parse_type()?;
        let ghost before = parameters_view(result@);
        result.push((identifier, param_type));
        assert(parameters_view(result@) =~= before.push((identifier@, param_type)));
        let comma = match self.peek()? {
            Token::Comma => true,
            _ => false,
        };
        if comma {
            self.eat();
        }
        self.parameter_list(result)
    }
}

impl Parser {
    /// `expr : term ;`
    pub fn parse_expr(&mut self) -> (res: Result<Expr, ParseError>)
        ensures
            (final(self)@, expr_result(res)) == spec_parse_expr(old(self)@),
            final(self)@.measure() <= old(self)@.measure(),
        decreases old(self)@.measure(), 9nat,
    {
        proof {
            reveal(spec_parse_expr);
            reveal(spec_parse_term_expr);
        }
        self.parse_term_expr()
    }

    /// `term : factor ( ( '+' | '-' ) factor )* ;`, left-associative.
    pub fn parse_term_expr(&mut self) -> (res: Result<Expr, ParseError>)
        ensures
            (final(self)@, expr_result(res)) == spec_parse_term_expr(old(self)@),
            final(self)@.measure() <= old(self)@.measure(),
        decreases old(self)@.measure(), 8nat,
    {
        proof {
            reveal(spec_parse_term_expr);
            reveal(spec_parse_factor_expr);
            reveal(spec_term_loop);
        }
        let first = self.parse_factor_expr()?;
        self.term_loop(first)
    }

    fn term_loop(&mut self, acc: Expr) -> (res: Result<Expr, ParseError>)
        ensures
            (final(self)@, expr_result(res)) == spec_term_loop(old(self)@, expr_view(acc)),
            final(self)@.measure() <= old(self)@.measure(),
        decreases old(self)@.measure(), 0nat,
    {
        proof {
            reveal(spec_term_loop);
            reveal(spec_parse_factor_expr);
        }
        let (is_plus, is_minus, erroneous) = match self.peek()? {
            t => (matches!(t, Token::Plus), matches!(t, Token::Minus), is_erroneous(t)),
        };
        if is_plus || is_minus {
            self.eat();
            let rhs = self.parse_factor_expr()?;
            let combined = if is_plus {
                Expr::Add(Box::new(acc), Box::new(rhs))
            } else {
                Expr::Sub(Box::new(acc), Box::new(rhs))
            };
            proof {
                lemma_expr_view(combined);
            }
            self.term_loop(combined)
        } else if erroneous {
            Err(unexpected(self.take_peeked()))
        } else {
            Ok(acc)
        }
    }

    /// `factor : unary ( ( '*' | '/' ) unary )* ;`, left-associative.
    pub fn parse_factor_expr(&mut self) -> (res: Result<Expr, ParseError>)
        ensures
            (final(self)@, expr_result(res)) == spec_parse_factor_expr(old(self)@),
            final(self)@.measure() <= old(self)@.measure(),
        decreases old(self)@.measure(), 7nat,
    {
        proof {
            reveal(spec_parse_factor_expr);
            reveal(spec_parse_unary_expr);
            reveal(spec_factor_loop);
        }
        let first = self.parse_unary_expr()?;
        self.factor_loop(first)
    }

    fn factor_loop(&mut self, acc: Expr) -> (res: Result<Expr, ParseError>)
        ensures
            (final(self)@, expr_result(res)) == spec_factor_loop(old(self)@, expr_view(acc)),
            final(self)@.measure() <= old(self)@.measure(),
        decreases old(self)@.measure(), 0nat,
    {
        proof {
            reveal(spec_factor_loop);
            reveal(spec_parse_unary_expr);
        }
        let (is_mul, is_div, erroneous) = match self.peek()? {
            t => (matches!(t, Token::Asterisk), matches!(t, Token::Slash), is_erroneous(t)),
        };
        if is_mul || is_div {
            self.eat();
            let rhs = self.parse_unary_expr()?;
            let combined = if is_mul {
                Expr::Mul(Box::new(acc), Box::new(rhs))
            } else {
                Expr::Div(Box::new(acc), Box::new(rhs))
            };
            proof {
                lemma_expr_view(combined);
            }
            self.factor_loop(combined)
        } else if erroneous {
            Err(unexpected(self.take_peeked()))
        } else {
            Ok(acc)
        }
    }

    /// `unary : ( '-' | '!' | '*' | '&' ) unary | call ;`
    pub fn parse_unary_expr(&mut self) -> (res: Result<Expr, ParseError>)
        ensures
            (final(self)@, expr_result(res)) == spec_parse_unary_expr(old(self)@),
            final(self)@.measure() <= old(self)@.measure(),
        decreases old(self)@.measure(), 6nat,
    {
        proof {
            reveal(spec_parse_unary_expr);
            reveal(spec_parse_function_call_expr);
        }
        let op = unary_op(self.peek()?);
        match op {
            Some(unary) => {
                self.eat();
                let operand = self.parse_unary_expr()?;
                let res = Expr::Unary(unary, Box::new(operand));
                proof {
                    lemma_expr_view(res);
                }
                Ok(res)
            },
            None => self.parse_function_call_expr(),
        }
    }

    /// `call : IDENTIFIER ( '(' ( expr ( ',' expr )* )? ')' )? | primary ;`
    pub fn parse_function_call_expr(&mut self) -> (res: Result<Expr, ParseError>)
        ensures
            (final(self)@, expr_result(res)) == spec_parse_function_call_expr(old(self)@),
            final(self)@.measure() <= old(self)@.measure(),
        decreases old(self)@.measure(), 5nat,
    {
        proof {
            reveal(spec_parse_function_call_expr);
            reveal(spec_argument_list);
            reveal(spec_parse_primary_expr);
        }
        let is_identifier = match self.peek()? {
            Token::Identifier(_) => true,
            _ => false,
        };
        if !is_identifier {
            return self.parse_primary_expr();
        }
        let identifier = match self.take_peeked() {
            Token::Identifier(name) => name,
            _ => return Err(parsing_ice()),
        };
        let open = match self.peek()? {
            Token::OpenBracket => true,
            _ => false,
        };
        if !open {
            let res = Expr::VariableRef(identifier);
            proof {
                lemma_expr_view(res);
            }
            return Ok(res);
        }
        self.eat();
        let close = match self.peek()? {
            Token::CloseBracket => true,
            _ => false,
        };
        if close {
            self.eat();
            let no_args: Vec<Expr> = Vec::new();
            proof {
                lemma_call_view(identifier, no_args);
                assert(exprs_view(no_args@) =~= Seq::<SpecExpr>::empty());
            }
            return Ok(Expr::FunctionCall(identifier, no_args));
        }
        let parameters: Vec<Expr> = Vec::new();
        assert(exprs_view(parameters@) =~= Seq::<SpecExpr>::empty());
        self.argument_list(identifier, parameters)
    }

    /// `expr ( ',' expr )* ')'` after the arguments `parameters` of a call.
    fn argument_list(&mut self, identifier: String, parameters: Vec<Expr>) -> (res: Result<Expr, ParseError>)
        ensures
            (final(self)@, expr_result(res)) == spec_argument_list(
                old(self)@,
                identifier@,
                exprs_view(parameters@),
            ),
            final(self)@.measure() <= old(self)@.measure(),
        decreases old(self)@.measure() + 1, 0nat,
    {
        proof {
            reveal(spec_argument_list);
            reveal(spec_parse_expr);
        }
        let mut parameters = parameters;
        let argument = self.parse_expr()?;
        let ghost before = exprs_view(parameters@);
        let ghost arg_view = expr_view(argument);
        parameters.push(argument);
        assert(exprs_view(parameters@) =~= before.push(arg_view));
        match self.read()? {
            Token::CloseBracket => {
                proof {
                    lemma_call_view(identifier, parameters);
                }
                Ok(Expr::FunctionCall(identifier, parameters))
            },
            Token::Comma => self.argument_list(identifier, parameters),
            t => Err(unexpected(t)),
        }
    }

    /// `primary : block | '(' expr ')' | LITERAL | REAL ;`
    pub fn parse_primary_expr(&mut self) -> (res: Result<Expr, ParseError>)
        ensures
            (final(self)@, expr_result(res)) == spec_parse_primary_expr(old(self)@),
            final(self)@.measure() <= old(self)@.measure(),
        decreases old(self)@.measure(), 3nat,
    {
        proof {
            reveal(spec_parse_primary_expr);
            reveal(spec_parse_block_expr);
            reveal(spec_parse_expr);
        }
        let (block, bracket) = match self.peek()? {
            t => (
                matches!(t, Token::Constant) || matches!(t, Token::Unsafe) || matches!(
                    t,
                    Token::OpenCurlyBracket
                ),
                matches!(t, Token::OpenBracket),
            ),
        };
        if block {
            return self.parse_block_expr();
        }
        if bracket {
            self.eat();
            let result = self.parse_expr()?;
            self.expect(Token::CloseBracket)?;
            return Ok(result);
        }
        let value: Option<Result<Expr, ParseError>> = match self.peek()? {
            Token::Literal(literal) => match parse_unsigned_numeral(literal.as_str(), u128::MAX) {
                Some(v) => {
                    proof {
                        lemma_expr_view(Expr::IntegerLiteral(v));
                    }
                    Some(Ok(Expr::IntegerLiteral(v)))
                },
                None => Some(Err(ParseError::IntegerLiteral(literal.clone()))),
            },
            Token::Real(text) => {
                let res = Expr::FloatLiteral(without_last_char(text.as_str()));
                proof {
                    lemma_expr_view(res);
                }
                Some(Ok(res))
            },
            _ => None,
        };
        match value {
            Some(Ok(e)) => {
                self.eat();
                Ok(e)
            },
            Some(Err(e)) => Err(e),
            None => Err(unexpected(self.take_peeked())),
        }
    }

    /// The modifiers and the opening bracket of a block.
    fn block_head(&mut self) -> (res: Result<Modifiers, ParseError>)
        ensures
            (final(self)@, copy_result(res)) == spec_block_head(old(self)@),
            final(self)@.measure() <= old(self)@.measure(),
            res is Ok ==> final(self)@.measure() < old(self)@.measure(),
    {
        match self.read()? {
            Token::Constant => {
                let also_unsafe = match self.peek()? {
                    Token::Unsafe => true,
                    _ => false,
                };
                let modifiers = if also_unsafe {
                    self.eat();
                    MOD_CONSTANT | MOD_UNSAFE
                } else {
                    MOD_CONSTANT
                };
                self.expect(Token::OpenCurlyBracket)?;
                Ok(modifiers)
            },
            Token::Unsafe => {
                self.expect(Token::OpenCurlyBracket)?;
                Ok(MOD_UNSAFE)
            },
            Token::OpenCurlyBracket => Ok(0u8),
            t => Err(unexpected(t)),
        }
    }

    /// `block : ( 'const' 'unsafe'? | 'unsafe' )? '{' stmt* expr '}' ;`
    pub fn parse_block_expr(&mut self) -> (res: Result<Expr, ParseError>)
        ensures
            (final(self)@, expr_result(res)) == spec_parse_block_expr(old(self)@),
            final(self)@.measure() <= old(self)@.measure(),
        decreases old(self)@.measure(), 2nat,
    {
        proof {
            reveal(spec_parse_block_expr);
            reveal(spec_block_loop);
        }
        let modifiers = self.block_head()?;
        let stmts: Vec<Stmt> = Vec::new();
        assert(stmts_view(stmts@) =~= Seq::<SpecStmt>::empty());
        self.block_loop(modifiers, stmts)
    }

    fn block_loop(&mut self, modifiers: Modifiers, stmts: Vec<Stmt>) -> (res: Result<Expr, ParseError>)
        ensures
            (final(self)@, expr_result(res)) == spec_block_loop(
                old(self)@,
                modifiers,
                stmts_view(stmts@),
            ),
            final(self)@.measure() <= old(self)@.measure(),
        decreases old(self)@.measure(), 12nat,
    {
        proof {
            reveal(spec_block_loop);
            reveal(spec_parse_block_body);
        }
        let mut stmts = stmts;
        match self.parse_block_body(&mut stmts)? {
            Some(result) => {
                self.expect(Token::CloseCurlyBracket)?;
                let boxed = Box::new(result);
                proof {
                    lemma_block_view(modifiers, stmts, boxed);
                }
                Ok(Expr::Block(modifiers, stmts, boxed))
            },
            None => self.block_loop(modifiers, stmts),
        }
    }

    /// One step of a block body: a statement pushed onto `dest`, or the final
    /// expression of the block.
    #[verifier::rlimit(50)]
    pub fn parse_block_body(&mut self, dest: &mut Vec<Stmt>) -> (res: Result<Option<Expr>, ParseError>)
        ensures
            (final(self)@, stmts_view(final(dest)@), body_result(res)) == spec_parse_block_body(
                old(self)@,
                stmts_view(old(dest)@),
            ),
            final(self)@.measure() <= old(self)@.measure(),
            res matches Ok(None) ==> final(self)@.measure() < old(self)@.measure(),
        decreases old(self)@.measure(), 11nat,
    {
        proof {
            reveal(spec_parse_block_body);
            reveal(spec_parse_variable_stmt);
            reveal(spec_parse_expr);
        }
        let ghost d0 = stmts_view(dest@);
        let (is_val, is_identifier, is_close) = match self.peek()? {
            t => (
                matches!(t, Token::Val),
                matches!(t, Token::Identifier(_)),
                matches!(t, Token::CloseCurlyBracket),
            ),
        };
        if is_val {
            let stmt = self.parse_variable_stmt()?;
            let ghost sv = stmt_view(stmt);
            dest.push(stmt);
            assert(stmts_view(dest@) =~= d0.push(sv));
            return Ok(None);
        }
        if is_identifier {
            let identifier = match self.take_peeked() {
                Token::Identifier(name) => name,
                _ => return Err(parsing_ice()),
            };
            match self.read()? {
                Token::Equals => {
                    let expr = self.parse_expr()?;
                    self.expect(Token::Semicolon)?;
                    let stmt = Stmt::Assignment(identifier, expr);
                    proof {
                        lemma_stmt_view(stmt);
                    }
                    let ghost sv = stmt_view(stmt);
                    dest.push(stmt);
                    assert(stmts_view(dest@) =~= d0.push(sv));
                    return Ok(None);
                },
                Token::CloseCurlyBracket => {
                    let res = Expr::VariableRef(identifier);
                    proof {
                        lemma_expr_view(res);
                    }
                    return Ok(Some(res));
                },
                Token::Semicolon => {
                    let reference = Expr::VariableRef(identifier);
                    proof {
                        lemma_expr_view(reference);
                    }
                    let stmt = Stmt::Unit(reference);
                    proof {
                        lemma_stmt_view(stmt);
                    }
                    let ghost sv = stmt_view(stmt);
                    dest.push(stmt);
                    assert(stmts_view(dest@) =~= d0.push(sv));
                    return Ok(None);
                },
                t => return Err(unexpected(t)),
            }
        }
        if is_close {
            return Err(unexpected(Token::CloseCurlyBracket));
        }
        let expr = self.parse_expr()?;
        let semicolon = match self.peek()? {
            Token::Semicolon => true,
            _ => false,
        };
        if semicolon {
            self.eat();
            let stmt = Stmt::Unit(expr);
            proof {
                lemma_stmt_view(stmt);
            }
            let ghost sv = stmt_view(stmt);
            dest.push(stmt);
            assert(stmts_view(dest@) =~= d0.push(sv));
            Ok(None)
        } else {
            Ok(Some(expr))
        }
    }

    /// `variableStmt : 'val' IDENTIFIER ( ';' | '=' expr ';' ) ;`
    pub fn parse_variable_stmt(&mut self) -> (res: Result<Stmt, ParseError>)
        ensures
            (final(self)@, stmt_result(res)) == spec_parse_variable_stmt(old(self)@),
            final(self)@.measure() <= old(self)@.measure(),
            res is Ok ==> final(self)@.measure() < old(self)@.measure(),
        decreases old(self)@.measure(), 10nat,
    {
        proof {
            reveal(spec_parse_variable_stmt);
            reveal(spec_parse_unit_stmt);
        }
        self.expect(Token::Val)?;
        let identifier = self.read_identifier()?;
        match self.read()? {
            Token::Semicolon => {
                let res = Stmt::Variable(identifier, None);
                proof {
                    lemma_stmt_view(res);
                }
                Ok(res)
            },
            Token::Equals => {
                let unit = self.parse_unit_stmt()?;
                proof {
                    lemma_stmt_view(unit);
                }
                match unit {
                    Stmt::Unit(expr) => {
                        let res = Stmt::Variable(identifier, Some(expr));
                        proof {
                            lemma_stmt_view(res);
                        }
                        Ok(res)
                    },
                    _ => Err(parsing_ice()),
                }
            },
            t => Err(unexpected(t)),
        }
    }

    /// `unitStmt : expr ';' ;`
    pub fn parse_unit_stmt(&mut self) -> (res: Result<Stmt, ParseError>)
        ensures
            (final(self)@, stmt_result(res)) == spec_parse_unit_stmt(old(self)@),
            final(self)@.measure() <= old(self)@.measure(),
            res is Ok ==> final(self)@.measure() < old(self)@.measure(),
        decreases old(self)@.measure(), 10nat,
    {
        proof {
            reveal(spec_parse_unit_stmt);
            reveal(spec_parse_expr);
        }
        let expr = self.parse_expr()?;
        self.expect(Token::Semicolon)?;
        let res = Stmt::Unit(expr);
        proof {
            lemma_stmt_view(res);
        }
        Ok(res)
    }

    /// `assignmentStmt : IDENTIFIER '=' expr ';' ;`
    pub fn parse_assignment_stmt(&mut self) -> (res: Result<Stmt, ParseError>)
        ensures
            (final(self)@, stmt_result(res)) == spec_parse_assignment_stmt(old(self)@),
            final(self)@.measure() <= old(self)@.measure(),
    {
        let identifier = self.read_identifier()?;
        self.expect(Token::Equals)?;
        let unit = self.parse_unit_stmt()?;
        proof {
            lemma_stmt_view(unit);
        }
        match unit {
            Stmt::Unit(expr) => {
                let res = Stmt::Assignment(identifier, expr);
                proof {
                    lemma_stmt_view(res);
                }
                Ok(res)
            },
            _ => Err(parsing_ice()),
        }
    }

    /// `stmt : variableStmt | assignmentStmt | unitStmt ;`, chosen by the next token.
    pub fn parse_stmt(&mut self) -> (res: Result<Stmt, ParseError>)
        ensures
            (final(self)@, stmt_result(res)) == spec_parse_stmt(old(self)@),
            final(self)@.measure() <= old(self)@.measure(),
    {
        let (is_val, is_identifier) = match self.peek()? {
            t => (matches!(t, Token::Val), matches!(t, Token::Identifier(_))),
        };
        if is_val {
            self.parse_variable_stmt()
        } else if is_identifier {
            self.parse_assignment_stmt()
        } else {
            self.parse_unit_stmt()
        }
    }
}

/// The text without its last character, where it has one.
fn without_last_char(text: &str) -> (res: String)
    ensures
        res@ == without_last(text@),
{
    let n = text.unicode_len();
    let mut res = String::new();
    if n == 0 {
        assert(res@ =~= text@);
        return res;
    }
    for i in 0..n - 1
        invariant
            n == text@.len(),
            n > 0,
            res@ =~= text@.take(i as int),
    {
        push_char(&mut res, text.get_char(i));
        assert(text@.take(i + 1) =~= text@.take(i as int).push(text@[i as int]));
    }
    assert(text@.take(n - 1) =~= text@.drop_last());
    res
}

impl Parser {
    /// Parses one top-level item.
    pub fn parse(&mut self) -> (res: Result<TopLevel, ParseError>)
        ensures
            (final(self)@, top_level_result(res)) == spec_parse_top_level(old(self)@),
            final(self)@.measure() <= old(self)@.measure(),
    {
        self.parse_top_level()
    }

    /// `topLevel : SHEBANG* attributes? declaration ;`
    pub fn parse_top_level(&mut self) -> (res: Result<TopLevel, ParseError>)
        ensures
            (final(self)@, top_level_result(res)) == spec_parse_top_level(old(self)@),
            final(self)@.measure() <= old(self)@.measure(),
        decreases old(self)@.measure(),
    {
        let is_hash = match self.peek()? {
            Token::Hash => true,
            _ => false,
        };
        if is_hash {
            proof {
                lemma_try_eat_shebang_measure(self@);
            }
            let ate = match self.lexer.try_eat_shebang() {
                Ok(b) => b,
                Err(e) => return Err(ParseError::Lexer(e)),
            };
            if ate {
                return self.parse_top_level();
            }
            let mut attributes = Attributes::default();
            self.parse_function_attrs(&mut attributes)?;
            return self.declaration(attributes);
        }
        self.declaration(Attributes::default())
    }

    fn declaration(&mut self, attributes: Attributes) -> (res: Result<TopLevel, ParseError>)
        ensures
            (final(self)@, top_level_result(res)) == spec_declaration(old(self)@, attributes@),
            final(self)@.measure() <= old(self)@.measure(),
    {
        let modifiers = self.declaration_modifiers()?;
        self.expect(Token::Function)?;
        let identifier = self.read_identifier()?;
        let parameters = self.parse_function_parameters()?;
        let return_type = self.return_type()?;
        self.declaration_end()?;
        let declaration = FunctionDeclaration::new(
            modifiers,
            attributes,
            identifier,
            parameters,
            return_type,
        );
        Ok(TopLevel::Function(declaration))
    }

    fn try_extern(&mut self, modifiers: Modifiers) -> (res: Result<Modifiers, ParseError>)
        ensures
            (final(self)@, copy_result(res)) == spec_try_extern(old(self)@, modifiers),
            final(self)@.measure() <= old(self)@.measure(),
    {
        let is_extern = match self.peek()? {
            Token::External => true,
            _ => false,
        };
        if is_extern {
            self.eat();
            Ok(modifiers | MOD_EXTERNAL)
        } else {
            Ok(modifiers)
        }
    }

    fn try_unsafe_extern(&mut self, modifiers: Modifiers) -> (res: Result<Modifiers, ParseError>)
        ensures
            (final(self)@, copy_result(res)) == spec_try_unsafe_extern(old(self)@, modifiers),
            final(self)@.measure() <= old(self)@.measure(),
    {
        let is_unsafe = match self.peek()? {
            Token::Unsafe => true,
            _ => false,
        };
        if is_unsafe {
            self.eat();
            self.try_extern(modifiers | MOD_UNSAFE)
        } else {
            Ok(modifiers)
        }
    }

    fn declaration_modifiers(&mut self) -> (res: Result<Modifiers, ParseError>)
        ensures
            (final(self)@, copy_result(res)) == spec_declaration_modifiers(old(self)@),
            final(self)@.measure() <= old(self)@.measure(),
    {
        let (is_function, is_private, is_constant, is_unsafe) = match self.peek()? {
            t => (
                matches!(t, Token::Function),
                matches!(t, Token::Private),
                matches!(t, Token::Constant),
                matches!(t, Token::Unsafe),
            ),
        };
        if is_function {
            Ok(0u8)
        } else if is_private {
            self.eat();
            let also_constant = match self.peek()? {
                Token::Constant => true,
                _ => false,
            };
            if also_constant {
                self.eat();
                self.try_unsafe_extern(MOD_PRIVATE | MOD_CONSTANT)
            } else {
                self.try_unsafe_extern(MOD_PRIVATE)
            }
        } else if is_constant {
            self.eat();
            self.try_unsafe_extern(MOD_CONSTANT)
        } else if is_unsafe {
            self.eat();
            self.try_extern(MOD_UNSAFE)
        } else {
            Err(unexpected(self.take_peeked()))
        }
    }

    fn return_type(&mut self) -> (res: Result<Type, ParseError>)
        ensures
            (final(self)@, copy_result(res)) == spec_return_type(old(self)@),
            final(self)@.measure() <= old(self)@.measure(),
    {
        let is_colon = match self.peek()? {
            Token::Colon => true,
            _ => false,
        };
        if is_colon {
            self.eat();
            self.parse_type()
        } else {
            Ok(Type::Void)
        }
    }

    fn declaration_end(&mut self) -> (res: Result<(), ParseError>)
        ensures
            (final(self)@, unit_result(res)) == spec_declaration_end(old(self)@),
            final(self)@.measure() <= old(self)@.measure(),
    {
        let (is_semicolon, is_block) = match self.peek()? {
            t => (matches!(t, Token::Semicolon), matches!(t, Token::OpenCurlyBracket)),
        };
        if is_semicolon {
            self.eat();
            Ok(())
        } else if is_block {
            self.parse_block_expr()?;
            Ok(())
        } else {
            Err(unexpected(self.take_peeked()))
        }
    }
}

} // verus!

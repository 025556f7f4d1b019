use rename_me::errors::{CompileError, ErrorSource, LexerError, Phase, ICE};
use rename_me::lexer::{is_valid_for_identifier_first, is_valid_for_identifier_rest, is_whitespace, Lexer, Token};

fn tokens_until_error(text: &[u8]) -> (Vec<Token>, LexerError) {
    let mut lexer = Lexer::new(text.to_vec());
    let mut tokens = Vec::new();
    loop {
        match lexer.read_token() {
            Ok(token) => tokens.push(token),
            Err(error) => return (tokens, error),
        }
    }
}

fn first_error(text: &[u8]) -> LexerError {
    tokens_until_error(text).1
}

#[test]
fn lexes_a_function_with_a_body() {
    let (tokens, end) = tokens_until_error(b"funct main() { val x = 1; }");
    assert_eq!(
        tokens,
        vec![
            Token::Function,
            Token::Identifier(String::from("main")),
            Token::OpenBracket,
            Token::CloseBracket,
            Token::OpenCurlyBracket,
            Token::Val,
            Token::Identifier(String::from("x")),
            Token::Equals,
            Token::Literal(String::from("1")),
            Token::Semicolon,
            Token::CloseCurlyBracket,
        ]
    );
    assert_eq!(end, LexerError::UnexpectedEndOfInput);
}

#[test]
fn lexes_keywords_and_attribute_keywords() {
    let (tokens, _) = tokens_until_error(
        b"unsafe extern const private return llvm-cold llvm-hot strict-fp try-inline force-inline ;",
    );
    assert_eq!(
        tokens,
        vec![
            Token::Unsafe,
            Token::External,
            Token::Constant,
            Token::Private,
            Token::Return,
            Token::Cold,
            Token::Hot,
            Token::StrictFloatingPoint,
            Token::TryInline,
            Token::ForceInline,
            Token::Semicolon,
        ]
    );
}

#[test]
fn lexes_punctuation() {
    let (tokens, _) = tokens_until_error(b"{}()[];:/*+-&,=!#");
    assert_eq!(
        tokens,
        vec![
            Token::OpenCurlyBracket,
            Token::CloseCurlyBracket,
            Token::OpenBracket,
            Token::CloseBracket,
            Token::OpenSquareBracket,
            Token::CloseSquareBracket,
            Token::Semicolon,
            Token::Colon,
            Token::Slash,
            Token::Asterisk,
            Token::Plus,
            Token::Minus,
            Token::Ampersand,
            Token::Comma,
            Token::Equals,
            Token::ExclamationMark,
            Token::Hash,
        ]
    );
}

#[test]
fn lexes_reals() {
    let (tokens, _) = tokens_until_error(b"1.5f; 2f 3.25f+");
    assert_eq!(
        tokens,
        vec![
            Token::Real(String::from("1.5f")),
            Token::Semicolon,
            Token::Real(String::from("2f")),
            Token::Real(String::from("3.25f")),
            Token::Plus,
        ]
    );
}

#[test]
fn identifiers_may_hold_digits_and_underscores() {
    let (tokens, _) = tokens_until_error(b"_a1 b_2;");
    assert_eq!(
        tokens,
        vec![
            Token::Identifier(String::from("_a1")),
            Token::Identifier(String::from("b_2")),
            Token::Semicolon,
        ]
    );
}

#[test]
fn reports_a_period_without_f() {
    assert_eq!(
        first_error(b"1.5;"),
        LexerError::UnexpectedCharacter { expected: 'f', actual: ';' }
    );
}

#[test]
fn reports_two_periods() {
    assert_eq!(first_error(b"1..2;"), LexerError::InvalidNumber(String::from("1..")));
}

#[test]
fn reports_a_bad_follower_of_a_real() {
    assert_eq!(
        first_error(b"1.5fx"),
        LexerError::UnexpectedAfterReal { literal: String::from("1.5f"), next: 'x' }
    );
}

#[test]
fn reports_an_identifier_without_letters() {
    assert_eq!(
        first_error(b"__ "),
        LexerError::InvalidIdentifier { identifier: String::from("__"), is_identifier_start: false }
    );
    assert_eq!(
        LexerError::invalid_identifier(String::from("__"), false),
        LexerError::InvalidIdentifier { identifier: String::from("__"), is_identifier_start: false }
    );
}

#[test]
fn reports_a_dash_in_an_identifier() {
    assert_eq!(first_error(b"llvm-x "), LexerError::IllegalIdentifier(String::from("llvm-x")));
}

#[test]
fn reports_unrecognised_characters() {
    assert_eq!(first_error(b"@"), LexerError::UnrecognisedCharacter('@'));
    assert_eq!(first_error("é".as_bytes()), LexerError::UnrecognisedCharacter('é'));
    assert_eq!(first_error("€".as_bytes()), LexerError::UnrecognisedCharacter('€'));
    assert_eq!(first_error("𝄞".as_bytes()), LexerError::UnrecognisedCharacter('𝄞'));
}

#[test]
fn reports_bad_bytes() {
    assert_eq!(first_error(b""), LexerError::UnexpectedEndOfInput);
    assert_eq!(first_error(b"\x01"), LexerError::DisallowedASCIIChar(1));
    assert_eq!(first_error(b"\x7f"), LexerError::DisallowedASCIIChar(127));
    assert_eq!(first_error(b"\xff"), LexerError::ZeroLengthByte(0xff));
    assert_eq!(first_error(b"\xc3\x28"), LexerError::InvalidByteSequence(vec![0xc3, 0x28]));
    assert_eq!(first_error(b"\xc3"), LexerError::UnexpectedEndOfInput);
}

#[test]
fn unicode_whitespace_separates_tokens() {
    let (tokens, _) = tokens_until_error("val\u{a0}x\u{2003};".as_bytes());
    assert_eq!(
        tokens,
        vec![Token::Val, Token::Identifier(String::from("x")), Token::Semicolon]
    );
}

#[test]
fn peek_then_read_gives_the_same_token() {
    let mut lexer = Lexer::new(b"val x;".to_vec());
    assert_eq!(lexer.peek_token().cloned_token(), Token::Val);
    assert_eq!(lexer.peek_token().cloned_token(), Token::Val);
    assert_eq!(lexer.read_token().unwrap(), Token::Val);
    assert_eq!(lexer.read_token().unwrap(), Token::Identifier(String::from("x")));
}

trait ClonedToken {
    fn cloned_token(self) -> Token;
}

impl ClonedToken for Result<&Token, LexerError> {
    fn cloned_token(self) -> Token {
        match self.expect("a token") {
            Token::Val => Token::Val,
            Token::Identifier(name) => Token::Identifier(name.clone()),
            Token::Semicolon => Token::Semicolon,
            other => panic!("unexpected {:?}", other),
        }
    }
}

#[test]
fn eats_a_shebang_only_after_a_hash() {
    let mut lexer = Lexer::new(b"#!/bin/sh\nval;".to_vec());
    assert_eq!(lexer.peek_token().cloned_token_or_hash(), Token::Hash);
    assert_eq!(lexer.try_eat_shebang(), Ok(true));
    assert_eq!(lexer.read_token().unwrap(), Token::Val);
    let mut lexer = Lexer::new(b"#(hot)".to_vec());
    assert_eq!(lexer.peek_token().cloned_token_or_hash(), Token::Hash);
    assert_eq!(lexer.try_eat_shebang(), Ok(false));
    assert_eq!(lexer.read_token().unwrap(), Token::Hash);
    assert_eq!(lexer.read_token().unwrap(), Token::OpenBracket);
}

trait ClonedHash {
    fn cloned_token_or_hash(self) -> Token;
}

impl ClonedHash for Result<&Token, LexerError> {
    fn cloned_token_or_hash(self) -> Token {
        match self.expect("a token") {
            Token::Hash => Token::Hash,
            other => panic!("unexpected {:?}", other),
        }
    }
}

#[test]
fn classifies_identifier_characters() {
    assert!(is_valid_for_identifier_first('a'));
    assert!(is_valid_for_identifier_first('_'));
    assert!(!is_valid_for_identifier_first('1'));
    assert!(!is_valid_for_identifier_first('-'));
    assert!(is_valid_for_identifier_rest('1'));
    assert!(is_valid_for_identifier_rest('-'));
    assert!(!is_valid_for_identifier_rest('.'));
    assert!(is_whitespace('\u{3000}'));
    assert!(!is_whitespace('x'));
}

#[test]
fn numbers_take_no_separators() {
    let (tokens, end) = tokens_until_error(b"1_0;");
    assert_eq!(tokens, vec![Token::Literal(String::from("1"))]);
    assert_eq!(
        end,
        LexerError::InvalidIdentifier { identifier: String::from("_0"), is_identifier_start: false }
    );
}

#[test]
fn a_period_may_end_the_digits_of_a_real() {
    let (tokens, _) = tokens_until_error(b"1.f;");
    assert_eq!(tokens, vec![Token::Real(String::from("1.f")), Token::Semicolon]);
}

#[test]
fn error_messages() {
    assert_eq!(
        LexerError::invalid_identifier(String::from("9x"), true).message(),
        "Parsed invalid identifier start character \"9x\"!"
    );
    assert_eq!(
        LexerError::invalid_identifier(String::from("9x"), false).message(),
        "Parsed invalid identifier \"9x\"!"
    );
    assert_eq!(
        LexerError::invalid_identifier(String::from("a\"b\\c\n"), false).message(),
        "Parsed invalid identifier \"a\\\"b\\\\c\\n\"!"
    );
    assert_eq!(
        LexerError::DisallowedASCIIChar(7).message(),
        "Disallowed ASCII character appeared!  Character (in decimal) was: '7'!"
    );
    assert_eq!(
        LexerError::ZeroLengthByte(255).message(),
        "Invalid UTF-8 byte with length of 0 appeared!  Byte (in decimal) was: '255'!"
    );
    assert_eq!(
        LexerError::InvalidByteSequence(vec![195, 40]).message(),
        "Invalid UTF-8 byte sequence!  Sequence (in decimal(s)) was: [195, 40]!"
    );
    assert_eq!(
        LexerError::InvalidByteSequence(vec![]).message(),
        "Invalid UTF-8 byte sequence!  Sequence (in decimal(s)) was: []!"
    );
    assert_eq!(
        LexerError::IllegalIdentifier(String::from("a-b")).message(),
        "Illegal identifier 'a-b'!  Contained a '-'!"
    );
    assert_eq!(LexerError::InvalidNumber(String::from("1..")).message(), "Invalid number '1..'!");
    assert_eq!(
        LexerError::UnexpectedCharacter { expected: 'f', actual: ';' }.message(),
        "Unexpected character reached, expected 'f', got ';'!"
    );
    assert_eq!(
        LexerError::UnexpectedAfterReal { literal: String::from("1.5f"), next: 'x' }.message(),
        "Unexpected character(s) found after real '1.5f'!  First was 'x'!"
    );
    assert_eq!(LexerError::UnrecognisedCharacter('@').message(), "Unrecognised character input '@'!");
    assert_eq!(
        LexerError::UnexpectedEndOfInput.message(),
        "An I/O error occurred whilst trying to read bytes from source!"
    );
}

#[test]
fn internal_and_compile_error_messages() {
    let ice = ICE::new(ErrorSource::new("main.rn", Phase::CodeGen));
    assert_eq!(
        ice.message(),
        "An Internal Compiler Error occurred whilst compiling main.rn during phase CodeGen!  This is a compiler bug, not a bug your code!",
    );
    let error = CompileError::new(ErrorSource::new("main.rn", Phase::Lexing));
    assert_eq!(error.message(), "An error occurred whilst compiling main.rn during phase Lexing!");
}

//! The errors of the lexer, the parser and the compiler driver.
use vstd::prelude::*;

use vstd::string::*;

use crate::lexer::{SpecToken, Token};
use crate::text::{chars_of, push_char};

verus! {

/// What went wrong while turning the source into characters and tokens.
#[must_use]
#[derive(Debug, PartialEq, Eq)]
pub enum LexerError {
    /// The source ended before the bytes that were asked for.
    UnexpectedEndOfInput,
    /// A control character outside of the allowed whitespace appeared.
    DisallowedASCIIChar(u8),
    /// A byte that cannot start a UTF-8 sequence appeared.
    ZeroLengthByte(u8),
    /// The bytes of one multi-byte character were not valid UTF-8.
    InvalidByteSequence(Vec<u8>),
    /// An identifier without any ASCII letter, or with a bad first character.
    InvalidIdentifier { identifier: String, is_identifier_start: bool },
    /// A word that is no keyword but contains a `-`.
    IllegalIdentifier(String),
    /// A number with two periods.
    InvalidNumber(String),
    /// A character other than the one the number syntax demands.
    UnexpectedCharacter { expected: char, actual: char },
    /// A significant character after a real literal that may not follow it.
    UnexpectedAfterReal { literal: String, next: char },
    /// A character that starts no token.
    UnrecognisedCharacter(char),
}

/// The mathematical value of a [`LexerError`].
pub enum SpecLexerError {
    UnexpectedEndOfInput,
    DisallowedASCIIChar(u8),
    ZeroLengthByte(u8),
    InvalidByteSequence(Seq<u8>),
    InvalidIdentifier { identifier: Seq<char>, is_identifier_start: bool },
    IllegalIdentifier(Seq<char>),
    InvalidNumber(Seq<char>),
    UnexpectedCharacter { expected: char, actual: char },
    UnexpectedAfterReal { literal: Seq<char>, next: char },
    UnrecognisedCharacter(char),
}

impl View for LexerError {
    type V = SpecLexerError;

    open spec fn view(&self) -> SpecLexerError {
        match self {
            LexerError::UnexpectedEndOfInput => SpecLexerError::UnexpectedEndOfInput,
            LexerError::DisallowedASCIIChar(b) => SpecLexerError::DisallowedASCIIChar(*b),
            LexerError::ZeroLengthByte(b) => SpecLexerError::ZeroLengthByte(*b),
            LexerError::InvalidByteSequence(v) => SpecLexerError::InvalidByteSequence(v@),
            LexerError::InvalidIdentifier { identifier, is_identifier_start } =>
                SpecLexerError::InvalidIdentifier {
                    identifier: identifier@,
                    is_identifier_start: *is_identifier_start,
                },
            LexerError::IllegalIdentifier(s) => SpecLexerError::IllegalIdentifier(s@),
            LexerError::InvalidNumber(s) => SpecLexerError::InvalidNumber(s@),
            LexerError::UnexpectedCharacter { expected, actual } =>
                SpecLexerError::UnexpectedCharacter { expected: *expected, actual: *actual },
            LexerError::UnexpectedAfterReal { literal, next } =>
                SpecLexerError::UnexpectedAfterReal { literal: literal@, next: *next },
            LexerError::UnrecognisedCharacter(c) => SpecLexerError::UnrecognisedCharacter(*c),
        }
    }
}

impl LexerError {
    /// Builds [`LexerError::InvalidIdentifier`].
    pub fn invalid_identifier(identifier: String, is_identifier_start: bool) -> (res: Self)
        ensures
            res@ == (SpecLexerError::InvalidIdentifier {
                identifier: identifier@,
                is_identifier_start,
            }),
    {
        LexerError::InvalidIdentifier { identifier, is_identifier_start }
    }
}

/// The value of a character result.
pub open spec fn char_result_view(r: Result<char, LexerError>) -> Result<char, SpecLexerError> {
    match r {
        Ok(c) => Ok(c),
        Err(e) => Err(e@),
    }
}

/// The value of a result that carries characters.
pub open spec fn chars_result_view(r: Result<Vec<char>, LexerError>) -> Result<Seq<char>, SpecLexerError> {
    match r {
        Ok(v) => Ok(v@),
        Err(e) => Err(e@),
    }
}

/// The phase of compilation in which an error occurred.
#[derive(Debug, Clone, Copy, PartialEq, Eq, Structural)]
pub enum Phase {
    /// Lexing input.
    Lexing,
    /// Parsing tokens.
    Parsing,
    /// Generating output.
    CodeGen,
}

/// Where an error occurred: the input file and the phase.
#[derive(Debug, Clone, Copy)]
pub struct ErrorSource {
    pub input_file_name: &'static str,
    pub phase: Phase,
}

impl ErrorSource {
    /// The source of an error in `input_file_name` during `phase`.
    pub fn new(input_file_name: &'static str, phase: Phase) -> (res: Self)
        ensures
            res.input_file_name == input_file_name,
            res.phase == phase,
    {
        ErrorSource { input_file_name, phase }
    }
}

/// An internal compiler error: a compiler bug, not a bug in the compiled code.
#[must_use]
#[derive(Debug, Clone, Copy)]
pub struct ICE(pub ErrorSource);

impl ICE {
    /// An internal error at `source`.
    pub fn new(source: ErrorSource) -> (res: Self)
        ensures
            res.0 == source,
    {
        ICE(source)
    }
}

/// An error in the compiled code.
#[must_use]
#[derive(Debug, Clone, Copy)]
pub struct CompileError(pub ErrorSource);

impl CompileError {
    /// A compile error at `source`.
    pub fn new(source: ErrorSource) -> (res: Self)
        ensures
            res.0 == source,
    {
        CompileError(source)
    }
}

/// The file name that errors carry while the driver does not pass one on.
pub open spec fn unnamed_input() -> Seq<char> {
    "[unimplemented: name of input file]"@
}

/// A token that the grammar does not allow where it appeared.
#[must_use]
#[derive(Debug, PartialEq, Eq)]
pub struct UnexpectedTokenError {
    pub unexpected: Token,
}

impl UnexpectedTokenError {
    /// The error for `unexpected`.
    pub fn new(unexpected: Token) -> (res: Self)
        ensures
            res.unexpected@ == unexpected@,
    {
        UnexpectedTokenError { unexpected }
    }
}

/// What went wrong while parsing.
#[must_use]
#[derive(Debug)]
pub enum ParseError {
    /// The lexer failed.
    Lexer(LexerError),
    /// A token appeared where the grammar does not allow it.
    UnexpectedToken(UnexpectedTokenError),
    /// An integer literal too large for 128 bits.
    IntegerLiteral(String),
    /// An internal error.
    Internal(ICE),
    /// A type name that is none of the built-in types; named types are not
    /// looked up yet.
    CustomType(String),
}

/// The mathematical value of a [`ParseError`].
pub enum SpecParseError {
    Lexer(SpecLexerError),
    UnexpectedToken(SpecToken),
    IntegerLiteral(Seq<char>),
    Internal(Seq<char>, Phase),
    CustomType(Seq<char>),
    /// A sub-parse that consumed nothing where the grammar needs progress; the
    /// parser's own contracts show that it never happens.
    Stalled,
}

impl View for ParseError {
    type V = SpecParseError;

    open spec fn view(&self) -> SpecParseError {
        match self {
            ParseError::Lexer(e) => SpecParseError::Lexer(e@),
            ParseError::UnexpectedToken(e) => SpecParseError::UnexpectedToken(e.unexpected@),
            ParseError::IntegerLiteral(s) => SpecParseError::IntegerLiteral(s@),
            ParseError::Internal(ice) => SpecParseError::Internal(
                ice.0.input_file_name@,
                ice.0.phase,
            ),
            ParseError::CustomType(s) => SpecParseError::CustomType(s@),
        }
    }
}

/// An internal error of the parser.
pub fn parsing_ice() -> (res: ParseError)
    ensures
        res@ == SpecParseError::Internal(unnamed_input(), Phase::Parsing),
{
    ParseError::Internal(ICE::new(ErrorSource::new("[unimplemented: name of input file]", Phase::Parsing)))
}

/// An unexpected-token error.
pub fn unexpected(token: Token) -> (res: ParseError)
    ensures
        res@ == SpecParseError::UnexpectedToken(token@),
{
    ParseError::UnexpectedToken(UnexpectedTokenError::new(token))
}

} // verus!

verus! {

// ---------------------------------------------------------------------------
// The messages of lexer errors
// ---------------------------------------------------------------------------

/// The character of the decimal digit `d`.
pub open spec fn digit_char(d: nat) -> char {
    (48 + d) as char
}

/// The decimal text of `n`.
pub open spec fn decimal_text(n: nat) -> Seq<char>
    decreases n,
{
    if n < 10 {
        seq![digit_char(n)]
    } else {
        decimal_text(n / 10).push(digit_char(n % 10))
    }
}

/// How `Debug` writes the character `c` inside a string: quotes, backslashes
/// and the common control characters escaped, others as they are.
pub open spec fn escaped_char(c: char) -> Seq<char> {
    if c == '"' {
        seq!['\\', '"']
    } else if c == '\\' {
        seq!['\\', '\\']
    } else if c == '\n' {
        seq!['\\', 'n']
    } else if c == '\r' {
        seq!['\\', 'r']
    } else if c == '\t' {
        seq!['\\', 't']
    } else if c == '\0' {
        seq!['\\', '0']
    } else {
        seq![c]
    }
}

/// The characters of `s`, each escaped.
pub open spec fn escaped(s: Seq<char>) -> Seq<char>
    decreases s.len(),
{
    if s.len() == 0 {
        Seq::empty()
    } else {
        escaped(s.drop_last()) + escaped_char(s.last())
    }
}

/// The bytes of `v` in decimal, separated by `, `.
pub open spec fn joined_decimals(v: Seq<u8>) -> Seq<char>
    decreases v.len(),
{
    if v.len() == 0 {
        Seq::empty()
    } else if v.len() == 1 {
        decimal_text(v[0] as nat)
    } else {
        joined_decimals(v.drop_last()) + ", "@ + decimal_text(v.last() as nat)
    }
}

/// The message of a lexer error.
pub open spec fn lexer_message(e: SpecLexerError) -> Seq<char> {
    match e {
        SpecLexerError::UnexpectedEndOfInput =>
            "An I/O error occurred whilst trying to read bytes from source!"@,
        SpecLexerError::DisallowedASCIIChar(b) =>
            "Disallowed ASCII character appeared!  Character (in decimal) was: '"@ + decimal_text(b as nat) + "'!"@,
        SpecLexerError::ZeroLengthByte(b) =>
            "Invalid UTF-8 byte with length of 0 appeared!  Byte (in decimal) was: '"@ + decimal_text(b as nat) + "'!"@,
        SpecLexerError::InvalidByteSequence(v) =>
            "Invalid UTF-8 byte sequence!  Sequence (in decimal(s)) was: ["@ + joined_decimals(v) + "]!"@,
        SpecLexerError::InvalidIdentifier { identifier, is_identifier_start } =>
            "Parsed invalid identifier "@ + (if is_identifier_start {
                "start character "@
            } else {
                Seq::empty()
            }) + "\""@ + escaped(identifier) + "\"!"@,
        SpecLexerError::IllegalIdentifier(s) => "Illegal identifier '"@ + s + "'!  Contained a '-'!"@,
        SpecLexerError::InvalidNumber(s) => "Invalid number '"@ + s + "'!"@,
        SpecLexerError::UnexpectedCharacter { expected, actual } =>
            "Unexpected character reached, expected '"@ + seq![expected] + "', got '"@ + seq![actual]
                + "'!"@,
        SpecLexerError::UnexpectedAfterReal { literal, next } =>
            "Unexpected character(s) found after real '"@ + literal + "'!  First was '"@ + seq![next]
                + "'!"@,
        SpecLexerError::UnrecognisedCharacter(c) => "Unrecognised character input '"@ + seq![c] + "'!"@,
    }
}

fn digit(d: u8) -> (c: char)
    requires
        d < 10,
    ensures
        c == digit_char(d as nat),
{
    (48u8 + d) as char
}

fn push_decimal(s: &mut String, n: u8)
    ensures
        final(s)@ == old(s)@ + decimal_text(n as nat),
{
    reveal_with_fuel(decimal_text, 3);
    let ghost before = s@;
    if n >= 100 {
        push_char(s, digit(n / 100));
        push_char(s, digit((n / 10) % 10));
        push_char(s, digit(n % 10));
        assert(decimal_text((n / 10) as nat) =~= seq![digit_char((n / 100) as nat), digit_char(((n / 10) % 10) as nat)]);
    } else if n >= 10 {
        push_char(s, digit(n / 10));
        push_char(s, digit(n % 10));
    } else {
        push_char(s, digit(n));
    }
    assert(s@ =~= before + decimal_text(n as nat));
}

fn push_escaped(s: &mut String, text: &str)
    ensures
        final(s)@ == old(s)@ + escaped(text@),
{
    let chars = chars_of(text);
    let n = chars.len();
    let ghost before = s@;
    for i in 0..n
        invariant
            n == chars@.len(),
            chars@ == text@,
            s@ == before + escaped(chars@.take(i as int)),
    {
        let c = chars[i];
        let ghost prev = s@;
        if c == '"' {
            s.append("\\\"");
        } else if c == '\\' {
            s.append("\\\\");
        } else if c == '\n' {
            s.append("\\n");
        } else if c == '\r' {
            s.append("\\r");
        } else if c == '\t' {
            s.append("\\t");
        } else if c == '\0' {
            s.append("\\0");
        } else {
            push_char(s, c);
        }
        proof {
            reveal_strlit("\\\"");
            reveal_strlit("\\\\");
            reveal_strlit("\\n");
            reveal_strlit("\\r");
            reveal_strlit("\\t");
            reveal_strlit("\\0");
            assert(chars@.take(i + 1).drop_last() =~= chars@.take(i as int));
            assert(s@ =~= prev + escaped_char(c));
        }
    }
    assert(chars@.take(n as int) =~= chars@);
}

fn push_joined_decimals(s: &mut String, v: &Vec<u8>)
    ensures
        final(s)@ == old(s)@ + joined_decimals(v@),
{
    let n = v.len();
    let ghost before = s@;
    for i in 0..n
        invariant
            n == v@.len(),
            s@ == before + joined_decimals(v@.take(i as int)),
    {
        let ghost prev = s@;
        if i > 0 {
            s.append(", ");
        }
        push_decimal(s, v[i]);
        proof {
            reveal_strlit(", ");
            assert(v@.take(i + 1).drop_last() =~= v@.take(i as int));
            if i == 0 {
                assert(v@.take(1) =~= seq![v@[0]]);
            }
        }
    }
    assert(v@.take(n as int) =~= v@);
}

impl LexerError {
    /// The message of this error.
    pub fn message(&self) -> (res: String)
        ensures
            res@ == lexer_message(self@),
    {
        match self {
            LexerError::UnexpectedEndOfInput => String::from_str(
                "An I/O error occurred whilst trying to read bytes from source!",
            ),
            LexerError::DisallowedASCIIChar(b) => {
                let mut s = String::from_str(
                    "Disallowed ASCII character appeared!  Character (in decimal) was: '",
                );
                push_decimal(&mut s, *b);
                s.append("'!");
                s
            },
            LexerError::ZeroLengthByte(b) => {
                let mut s = String::from_str(
                    "Invalid UTF-8 byte with length of 0 appeared!  Byte (in decimal) was: '",
                );
                push_decimal(&mut s, *b);
                s.append("'!");
                s
            },
            LexerError::InvalidByteSequence(v) => {
                let mut s = String::from_str(
                    "Invalid UTF-8 byte sequence!  Sequence (in decimal(s)) was: [",
                );
                push_joined_decimals(&mut s, v);
                s.append("]!");
                s
            },
            LexerError::InvalidIdentifier { identifier, is_identifier_start } => {
                let mut s = String::from_str("Parsed invalid identifier ");
                if *is_identifier_start {
                    s.append("start character ");
                } else {
                    proof {
                        assert(s@ + Seq::<char>::empty() =~= s@);
                    }
                }
                s.append("\"");
                push_escaped(&mut s, identifier.as_str());
                s.append("\"!");
                s
            },
            LexerError::IllegalIdentifier(text) => {
                let mut s = String::from_str("Illegal identifier '");
                s.append(text.as_str());
                s.append("'!  Contained a '-'!");
                s
            },
            LexerError::InvalidNumber(text) => {
                let mut s = String::from_str("Invalid number '");
                s.append(text.as_str());
                s.append("'!");
                s
            },
            LexerError::UnexpectedCharacter { expected, actual } => {
                let mut s = String::from_str("Unexpected character reached, expected '");
                push_char(&mut s, *expected);
                s.append("', got '");
                push_char(&mut s, *actual);
                s.append("'!");
                s
            },
            LexerError::UnexpectedAfterReal { literal, next } => {
                let mut s = String::from_str("Unexpected character(s) found after real '");
                s.append(literal.as_str());
                s.append("'!  First was '");
                push_char(&mut s, *next);
                s.append("'!");
                s
            },
            LexerError::UnrecognisedCharacter(c) => {
                let mut s = String::from_str("Unrecognised character input '");
                push_char(&mut s, *c);
                s.append("'!");
                s
            },
        }
    }
}

/// The name of a phase, as it stands in a message.
pub open spec fn phase_name(phase: Phase) -> Seq<char> {
    match phase {
        Phase::Lexing => "Lexing"@,
        Phase::Parsing => "Parsing"@,
        Phase::CodeGen => "CodeGen"@,
    }
}

/// Where an error occurred, as it stands in a message.
pub open spec fn source_text(source: ErrorSource) -> Seq<char> {
    source.input_file_name@ + " during phase "@ + phase_name(source.phase)
}

/// The message of an internal error at `source`.
pub open spec fn ice_message(source: ErrorSource) -> Seq<char> {
    "An Internal Compiler Error occurred whilst compiling "@ + source_text(source)
        + "!  This is a compiler bug, not a bug your code!"@
}

/// The message of a compile error at `source`.
pub open spec fn compile_message(source: ErrorSource) -> Seq<char> {
    "An error occurred whilst compiling "@ + source_text(source) + "!"@
}

fn push_source(s: &mut String, source: ErrorSource)
    ensures
        final(s)@ == old(s)@ + source_text(source),
{
    let ghost before = s@;
    s.append(source.input_file_name);
    s.append(" during phase ");
    match source.phase {
        Phase::Lexing => s.append("Lexing"),
        Phase::Parsing => s.append("Parsing"),
        Phase::CodeGen => s.append("CodeGen"),
    }
    assert(s@ =~= before + source_text(source));
}

impl ICE {
    /// The message of this error.
    pub fn message(&self) -> (res: String)
        ensures
            res@ == ice_message(self.0),
    {
        let mut s = String::from_str("An Internal Compiler Error occurred whilst compiling ");
        push_source(&mut s, self.0);
        s.append("!  This is a compiler bug, not a bug your code!");
        s
    }
}

impl CompileError {
    /// The message of this error.
    pub fn message(&self) -> (res: String)
        ensures
            res@ == compile_message(self.0),
    {
        let mut s = String::from_str("An error occurred whilst compiling ");
        push_source(&mut s, self.0);
        s.append("!");
        s
    }
}

} // verus!

//! The lexer: bytes to characters to tokens.
//!
//! The source is a sequence of bytes.  Characters are decoded from it as UTF-8,
//! one at a time; significant characters that were read too far are pushed back
//! on a stack and read again first.  At most one token is held back by a peek.
use vstd::prelude::*;
use vstd::utf8::*;

use crate::errors::{char_result_view, chars_result_view, LexerError, SpecLexerError};
use crate::text::{chars_equal, string_from_chars};

verus! {

/// `LETTER : [a-zA-Z]`
///
/// `NUM : [0-9]`
#[derive(Debug, PartialEq, Eq)]
#[non_exhaustive]
pub enum Token {
    /// `IDENTIFIER : IDENTIFIER_START IDENTIFIER_REST* ;` with at least one letter.
    ///
    /// `IDENTIFIER_START : LETTER | '_' ;`
    ///
    /// `IDENTIFIER_REST : LETTER | NUM | '_' ;`
    Identifier(String),
    /// Integer value: `NUM+`.
    Literal(String),
    /// Floating-point value: `NUM+ ( '.' NUM* )? 'f'`.
    Real(String),
    /// `funct`
    Function,
    /// `unsafe`
    Unsafe,
    /// `extern`
    External,
    /// `const`
    Constant,
    /// `private`
    Private,
    /// `return`
    Return,
    /// `val`
    Val,
    /// `llvm-cold`
    Cold,
    /// `llvm-hot`
    Hot,
    /// `strict-fp`
    StrictFloatingPoint,
    /// `try-inline`
    TryInline,
    /// `force-inline`
    ForceInline,
    /// `{`
    OpenCurlyBracket,
    /// `}`
    CloseCurlyBracket,
    /// `(`
    OpenBracket,
    /// `)`
    CloseBracket,
    /// `[`
    OpenSquareBracket,
    /// `]`
    CloseSquareBracket,
    /// `;`
    Semicolon,
    /// `:`
    Colon,
    /// `/`
    Slash,
    /// `*`
    Asterisk,
    /// `+`
    Plus,
    /// `-`
    Minus,
    /// `&`
    Ampersand,
    /// `,`
    Comma,
    /// `=`
    Equals,
    /// `!`
    ExclamationMark,
    /// `#`
    Hash,
}

/// The mathematical value of a [`Token`].
pub enum SpecToken {
    Identifier(Seq<char>),
    Literal(Seq<char>),
    Real(Seq<char>),
    Function,
    Unsafe,
    External,
    Constant,
    Private,
    Return,
    Val,
    Cold,
    Hot,
    StrictFloatingPoint,
    TryInline,
    ForceInline,
    OpenCurlyBracket,
    CloseCurlyBracket,
    OpenBracket,
    CloseBracket,
    OpenSquareBracket,
    CloseSquareBracket,
    Semicolon,
    Colon,
    Slash,
    Asterisk,
    Plus,
    Minus,
    Ampersand,
    Comma,
    Equals,
    ExclamationMark,
    Hash,
}

impl View for Token {
    type V = SpecToken;

    open spec fn view(&self) -> SpecToken {
        match self {
            Token::Identifier(s) => SpecToken::Identifier(s@),
            Token::Literal(s) => SpecToken::Literal(s@),
            Token::Real(s) => SpecToken::Real(s@),
            Token::Function => SpecToken::Function,
            Token::Unsafe => SpecToken::Unsafe,
            Token::External => SpecToken::External,
            Token::Constant => SpecToken::Constant,
            Token::Private => SpecToken::Private,
            Token::Return => SpecToken::Return,
            Token::Val => SpecToken::Val,
            Token::Cold => SpecToken::Cold,
            Token::Hot => SpecToken::Hot,
            Token::StrictFloatingPoint => SpecToken::StrictFloatingPoint,
            Token::TryInline => SpecToken::TryInline,
            Token::ForceInline => SpecToken::ForceInline,
            Token::OpenCurlyBracket => SpecToken::OpenCurlyBracket,
            Token::CloseCurlyBracket => SpecToken::CloseCurlyBracket,
            Token::OpenBracket => SpecToken::OpenBracket,
            Token::CloseBracket => SpecToken::CloseBracket,
            Token::OpenSquareBracket => SpecToken::OpenSquareBracket,
            Token::CloseSquareBracket => SpecToken::CloseSquareBracket,
            Token::Semicolon => SpecToken::Semicolon,
            Token::Colon => SpecToken::Colon,
            Token::Slash => SpecToken::Slash,
            Token::Asterisk => SpecToken::Asterisk,
            Token::Plus => SpecToken::Plus,
            Token::Minus => SpecToken::Minus,
            Token::Ampersand => SpecToken::Ampersand,
            Token::Comma => SpecToken::Comma,
            Token::Equals => SpecToken::Equals,
            Token::ExclamationMark => SpecToken::ExclamationMark,
            Token::Hash => SpecToken::Hash,
        }
    }
}

/// The value of a token result.
pub open spec fn token_result_view(r: Result<Token, LexerError>) -> Result<SpecToken, SpecLexerError> {
    match r {
        Ok(t) => Ok(t@),
        Err(e) => Err(e@),
    }
}

// ---------------------------------------------------------------------------
// Characters
// ---------------------------------------------------------------------------

/// `[a-zA-Z]`
pub open spec fn is_letter(c: char) -> bool {
    ('a' <= c <= 'z') || ('A' <= c <= 'Z')
}

/// `[0-9]`
pub open spec fn is_digit(c: char) -> bool {
    '0' <= c <= '9'
}

/// `IDENTIFIER_START`
pub open spec fn is_identifier_first(c: char) -> bool {
    is_letter(c) || c == '_'
}

/// What the lexer lets run on inside a word: `IDENTIFIER_REST` and `-`,
/// which only keywords may hold.
pub open spec fn is_identifier_rest(c: char) -> bool {
    is_letter(c) || is_digit(c) || c == '_' || c == '-'
}

/// Unicode's `White_Space` property, as `char::is_whitespace` tests it.
pub open spec fn is_white_space(c: char) -> bool {
    ||| ('\u{9}' <= c <= '\u{d}')
    ||| c == ' '
    ||| c == '\u{85}'
    ||| c == '\u{a0}'
    ||| c == '\u{1680}'
    ||| ('\u{2000}' <= c <= '\u{200a}')
    ||| c == '\u{2028}'
    ||| c == '\u{2029}'
    ||| c == '\u{202f}'
    ||| c == '\u{205f}'
    ||| c == '\u{3000}'
}

/// Control characters that may not appear in a source.
pub open spec fn is_disallowed_ascii(b: u8) -> bool {
    b <= 8 || b == 12 || (16 <= b <= 31) || b == 127
}

/// The length of the UTF-8 sequence that a byte of 192 or more starts; 0 where
/// it starts none.
pub open spec fn utf8_sequence_width(b: u8) -> nat {
    if 0xc2 <= b <= 0xdf {
        2
    } else if 0xe0 <= b <= 0xef {
        3
    } else if 0xf0 <= b <= 0xf4 {
        4
    } else {
        0
    }
}

/// Characters that may follow a real literal directly.
pub open spec fn may_follow_real(c: char) -> bool {
    c == ';' || c == '}' || c == '-' || c == '+' || c == '*' || c == '/' || c == '&' || c == '|'
}

/// Whether `input` may start an identifier.
pub fn is_valid_for_identifier_first(input: char) -> (res: bool)
    ensures
        res == is_identifier_first(input),
{
    ('a' <= input && input <= 'z') || ('A' <= input && input <= 'Z') || input == '_'
}

/// Whether `input` may continue a word.
pub fn is_valid_for_identifier_rest(input: char) -> (res: bool)
    ensures
        res == is_identifier_rest(input),
{
    ('a' <= input && input <= 'z') || ('A' <= input && input <= 'Z') || ('0' <= input && input
        <= '9') || input == '_' || input == '-'
}

fn is_ascii_letter(c: char) -> (res: bool)
    ensures
        res == is_letter(c),
{
    ('a' <= c && c <= 'z') || ('A' <= c && c <= 'Z')
}

fn is_ascii_digit(c: char) -> (res: bool)
    ensures
        res == is_digit(c),
{
    '0' <= c && c <= '9'
}

/// Whether `c` is whitespace in Unicode's sense.
pub fn is_whitespace(c: char) -> (res: bool)
    ensures
        res == is_white_space(c),
{
    ('\u{9}' <= c && c <= '\u{d}') || c == ' ' || c == '\u{85}' || c == '\u{a0}' || c
        == '\u{1680}' || ('\u{2000}' <= c && c <= '\u{200a}') || c == '\u{2028}' || c
        == '\u{2029}' || c == '\u{202f}' || c == '\u{205f}' || c == '\u{3000}'
}

fn disallowed_ascii(b: u8) -> (res: bool)
    ensures
        res == is_disallowed_ascii(b),
{
    b <= 8 || b == 12 || (16 <= b && b <= 31) || b == 127
}

fn sequence_width(b: u8) -> (res: usize)
    ensures
        res == utf8_sequence_width(b),
{
    if 0xc2 <= b && b <= 0xdf {
        2
    } else if 0xe0 <= b && b <= 0xef {
        3
    } else if 0xf0 <= b && b <= 0xf4 {
        4
    } else {
        0
    }
}

fn follows_real(c: char) -> (res: bool)
    ensures
        res == may_follow_real(c),
{
    c == ';' || c == '}' || c == '-' || c == '+' || c == '*' || c == '/' || c == '&' || c == '|'
}

/// Calls std's `char::from_u32`, which returns the `char` whose value is `v`
/// where `v` is a Unicode scalar value and `None` otherwise.
#[verifier::external_body]
fn char_from_u32(v: u32) -> (res: Option<char>)
    ensures
        res is Some <==> is_scalar(v),
        res matches Some(c) ==> c as u32 == v,
{
    char::from_u32(v)
}

proof fn lemma_width_2_bound(b0: u8, b1: u8)
    ensures
        ((b0 & 0x1f) as u32) << 6 | ((b1 & 0x3f) as u32) <= 0x7ff,
{
    assert(((b0 & 0x1f) as u32) << 6 | ((b1 & 0x3f) as u32) <= 0x7ff) by (bit_vector);
}

proof fn lemma_width_3_bound(b0: u8, b1: u8, b2: u8)
    ensures
        ((b0 & 0x0f) as u32) << 12 | ((b1 & 0x3f) as u32) << 6 | ((b2 & 0x3f) as u32) <= 0xffff,
{
    assert(((b0 & 0x0f) as u32) << 12 | ((b1 & 0x3f) as u32) << 6 | ((b2 & 0x3f) as u32)
        <= 0xffff) by (bit_vector);
}

/// Decodes the one character of `bytes`, a sequence whose length its first byte
/// announces.
fn decode_sequence(bytes: &Vec<u8>) -> (res: Option<char>)
    requires
        bytes.len() >= 2,
        bytes.len() == utf8_sequence_width(bytes@[0]),
    ensures
        res is Some <==> valid_first_scalar(bytes@),
        res matches Some(c) ==> c == (decode_first_scalar(bytes@) as char),
{
    let w = bytes.len();
    let b0 = bytes[0];
    let mut i: usize = 1;
    while i < w
        invariant
            1 <= i <= w,
            w == bytes.len(),
            bytes.len() >= 2,
            bytes.len() == utf8_sequence_width(bytes@[0]),
            forall|j: int| 1 <= j < i ==> is_continuation_byte(#[trigger] bytes@[j]),
        decreases w - i,
    {
        let b = bytes[i];
        if !(0x80 <= b && b <= 0xbf) {
            proof {
                assert(!is_continuation_byte(bytes@[i as int]));
                if i == 1 {
                    assert(!is_continuation_byte(bytes@[1]));
                } else if i == 2 {
                    assert(!is_continuation_byte(bytes@[2]));
                } else {
                    assert(!is_continuation_byte(bytes@[3]));
                }
            }
            return None;
        }
        i = i + 1;
    }
    assert(valid_leading_and_continuation_bytes_first_codepoint(bytes@));
    let cp: u32 = if w == 2 {
        ((b0 & 0x1f) as u32) << 6 | ((bytes[1] & 0x3f) as u32)
    } else if w == 3 {
        ((b0 & 0x0f) as u32) << 12 | ((bytes[1] & 0x3f) as u32) << 6 | ((bytes[2] & 0x3f) as u32)
    } else {
        ((b0 & 0x07) as u32) << 18 | ((bytes[1] & 0x3f) as u32) << 12 | ((bytes[2] & 0x3f) as u32)
            << 6 | ((bytes[3] & 0x3f) as u32)
    };
    assert(cp == decode_first_codepoint(bytes@));
    if (w == 2 && cp < 0x80) || (w == 3 && cp < 0x800) || (w == 4 && (cp < 0x10000 || cp
        > 0x10ffff)) || (0xd800 <= cp && cp <= 0xdfff) {
        return None;
    }
    proof {
        if w == 2 {
            lemma_width_2_bound(b0, bytes@[1]);
        } else if w == 3 {
            lemma_width_3_bound(b0, bytes@[1], bytes@[2]);
        }
    }
    assert(is_scalar(cp));
    match char_from_u32(cp) {
        Some(c) => {
            proof {
                char_u32_cast(c, cp);
            }
            Some(c)
        },
        None => None,
    }
}

// ---------------------------------------------------------------------------
// The state of the lexer
// ---------------------------------------------------------------------------

/// The mathematical state of a [`Lexer`].
pub struct LexState {
    /// The whole source.
    pub input: Seq<u8>,
    /// How many bytes of it have been read.
    pub pos: int,
    /// The token that a peek holds back.
    pub cached: Option<SpecToken>,
    /// Characters pushed back; the last one is read first.
    pub pending: Seq<char>,
}

impl LexState {
    /// The bytes not read yet.
    pub open spec fn remaining(self) -> nat {
        if 0 <= self.pos < self.input.len() {
            (self.input.len() - self.pos) as nat
        } else {
            0
        }
    }

    /// A measure that every character read lowers and no push-back raises
    /// above where the read began.
    pub open spec fn measure(self) -> nat {
        2 * self.remaining() + 2 * self.pending.len() + if self.cached is Some {
            1nat
        } else {
            0nat
        }
    }

    pub open spec fn with_pos(self, pos: int) -> LexState {
        LexState { pos, ..self }
    }

    pub open spec fn push_back(self, c: char) -> LexState {
        LexState { pending: self.pending.push(c), ..self }
    }

    pub open spec fn with_cached(self, t: Option<SpecToken>) -> LexState {
        LexState { cached: t, ..self }
    }
}

/// Reads one character from the bytes at `pos`: the new position and the
/// character or the error.
pub open spec fn decode_next_char(input: Seq<u8>, pos: int) -> (int, Result<char, SpecLexerError>) {
    if pos < 0 || pos >= input.len() {
        (input.len() as int, Err(SpecLexerError::UnexpectedEndOfInput))
    } else {
        let b = input[pos];
        if b < 128 {
            if is_disallowed_ascii(b) {
                (pos + 1, Err(SpecLexerError::DisallowedASCIIChar(b)))
            } else {
                (pos + 1, Ok(b as char))
            }
        } else if utf8_sequence_width(b) == 0 {
            (pos + 1, Err(SpecLexerError::ZeroLengthByte(b)))
        } else if pos + utf8_sequence_width(b) > input.len() {
            (input.len() as int, Err(SpecLexerError::UnexpectedEndOfInput))
        } else {
            let bytes = input.subrange(pos, pos + utf8_sequence_width(b));
            if valid_first_scalar(bytes) {
                (pos + utf8_sequence_width(b), Ok(decode_first_scalar(bytes) as char))
            } else {
                (pos + utf8_sequence_width(b), Err(SpecLexerError::InvalidByteSequence(bytes)))
            }
        }
    }
}

/// Reads one character from the source, ignoring pushed-back characters.
pub open spec fn spec_read_source_char(s: LexState) -> (LexState, Result<char, SpecLexerError>) {
    let (p, r) = decode_next_char(s.input, s.pos);
    (s.with_pos(p), r)
}

/// Reads one character: the last pushed-back one, or else one from the source.
pub open spec fn spec_read_char(s: LexState) -> (LexState, Result<char, SpecLexerError>) {
    if s.pending.len() > 0 {
        (LexState { pending: s.pending.drop_last(), ..s }, Ok(s.pending.last()))
    } else {
        spec_read_source_char(s)
    }
}

pub proof fn lemma_read_source_char_measure(s: LexState)
    ensures
        spec_read_source_char(s).0.measure() <= s.measure(),
        spec_read_source_char(s).1 is Ok ==> spec_read_source_char(s).0.measure() + 2
            <= s.measure(),
        spec_read_source_char(s).0.pending == s.pending,
        spec_read_source_char(s).0.cached == s.cached,
        spec_read_source_char(s).0.input == s.input,
        spec_read_source_char(s).0.pos >= 0,
{
}

pub proof fn lemma_read_char_measure(s: LexState)
    ensures
        spec_read_char(s).0.measure() <= s.measure(),
        spec_read_char(s).1 is Ok ==> spec_read_char(s).0.measure() + 2 <= s.measure(),
        spec_read_char(s).0.cached == s.cached,
        spec_read_char(s).0.input == s.input,
{
    lemma_read_source_char_measure(s);
}

/// Skips whitespace in the source and reads the first other character.
pub open spec fn spec_skip_whitespace(s: LexState) -> (LexState, Result<char, SpecLexerError>)
    decreases s.measure(),
{
    let (s1, r) = spec_read_source_char(s);
    match r {
        Ok(c) => if is_white_space(c) {
            proof {
                lemma_read_source_char_measure(s);
            }
            spec_skip_whitespace(s1)
        } else {
            (s1, Ok(c))
        },
        Err(e) => (s1, Err(e)),
    }
}

/// The next significant character: the last pushed-back one, or else the first
/// character of the source that is not whitespace.
pub open spec fn spec_next_sig_char(s: LexState) -> (LexState, Result<char, SpecLexerError>) {
    if s.pending.len() > 0 {
        (LexState { pending: s.pending.drop_last(), ..s }, Ok(s.pending.last()))
    } else {
        spec_skip_whitespace(s)
    }
}

/// The rest of a word after `buf`, with `current` just read: the characters of
/// the word, or an error where it holds no letter.
pub open spec fn spec_word_loop(s: LexState, buf: Seq<char>, no_letter: bool, current: char) -> (
    LexState,
    Result<Seq<char>, SpecLexerError>,
)
    decreases s.measure(),
{
    if is_identifier_rest(current) {
        let (s1, r) = spec_read_char(s);
        match r {
            Ok(c) => {
                proof {
                    lemma_read_char_measure(s);
                }
                spec_word_loop(s1, buf.push(current), no_letter && !is_letter(current), c)
            },
            Err(e) => (s1, Err(e)),
        }
    } else {
        let s1 = if is_white_space(current) {
            s
        } else {
            s.push_back(current)
        };
        if no_letter {
            (
                s1,
                Err(
                    SpecLexerError::InvalidIdentifier { identifier: buf, is_identifier_start: false },
                ),
            )
        } else {
            (s1, Ok(buf))
        }
    }
}

/// Reads a word that starts with `first`.
pub open spec fn spec_read_word(s: LexState, first: char) -> (LexState, Result<Seq<char>, SpecLexerError>) {
    spec_word_loop(s, Seq::empty(), true, first)
}

/// Where the scan of the digits and periods of a number stopped.
pub struct NumberScan {
    pub buf: Seq<char>,
    pub two_periods: bool,
    pub seen_period: bool,
    pub current: char,
}

/// Scans the digits and periods of a number after `buf`, with `current` just read.
pub open spec fn spec_number_loop(s: LexState, buf: Seq<char>, seen_period: bool, current: char) -> (
    LexState,
    Result<NumberScan, SpecLexerError>,
)
    decreases s.measure(),
{
    if is_digit(current) || current == '.' {
        if current == '.' && seen_period {
            (
                s,
                Ok(
                    NumberScan {
                        buf: buf.push(current),
                        two_periods: true,
                        seen_period: true,
                        current,
                    },
                ),
            )
        } else {
            let (s1, r) = spec_read_char(s);
            match r {
                Ok(c) => {
                    proof {
                        lemma_read_char_measure(s);
                    }
                    spec_number_loop(s1, buf.push(current), seen_period || current == '.', c)
                },
                Err(e) => (s1, Err(e)),
            }
        }
    } else {
        (s, Ok(NumberScan { buf, two_periods: false, seen_period, current }))
    }
}

/// Reads a number that starts with `first`: its characters, with a trailing `f`
/// for a real.
pub open spec fn spec_read_number(s: LexState, first: char) -> (LexState, Result<Seq<char>, SpecLexerError>) {
    let (s1, r) = spec_number_loop(s, Seq::empty(), false, first);
    match r {
        Err(e) => (s1, Err(e)),
        Ok(scan) => if scan.two_periods {
            (s1, Err(SpecLexerError::InvalidNumber(scan.buf)))
        } else if scan.seen_period && scan.current != 'f' {
            (s1, Err(SpecLexerError::UnexpectedCharacter { expected: 'f', actual: scan.current }))
        } else if scan.current == 'f' {
            let lit = scan.buf.push('f');
            let (s2, r2) = spec_read_char(s1);
            match r2 {
                Err(e) => (s2, Err(e)),
                Ok(next) => if is_white_space(next) {
                    (s2, Ok(lit))
                } else if may_follow_real(next) {
                    (s2.push_back(next), Ok(lit))
                } else {
                    (s2, Err(SpecLexerError::UnexpectedAfterReal { literal: lit, next }))
                },
            }
        } else if is_white_space(scan.current) {
            (s1, Ok(scan.buf))
        } else {
            (s1.push_back(scan.current), Ok(scan.buf))
        },
    }
}

/// The keyword that a word spells, if any.
pub open spec fn keyword(word: Seq<char>) -> Option<SpecToken> {
    if word == seq!['f', 'u', 'n', 'c', 't'] {
        Some(SpecToken::Function)
    } else if word == seq!['u', 'n', 's', 'a', 'f', 'e'] {
        Some(SpecToken::Unsafe)
    } else if word == seq!['e', 'x', 't', 'e', 'r', 'n'] {
        Some(SpecToken::External)
    } else if word == seq!['c', 'o', 'n', 's', 't'] {
        Some(SpecToken::Constant)
    } else if word == seq!['p', 'r', 'i', 'v', 'a', 't', 'e'] {
        Some(SpecToken::Private)
    } else if word == seq!['r', 'e', 't', 'u', 'r', 'n'] {
        Some(SpecToken::Return)
    } else if word == seq!['v', 'a', 'l'] {
        Some(SpecToken::Val)
    } else if word == seq!['l', 'l', 'v', 'm', '-', 'c', 'o', 'l', 'd'] {
        Some(SpecToken::Cold)
    } else if word == seq!['l', 'l', 'v', 'm', '-', 'h', 'o', 't'] {
        Some(SpecToken::Hot)
    } else if word == seq!['s', 't', 'r', 'i', 'c', 't', '-', 'f', 'p'] {
        Some(SpecToken::StrictFloatingPoint)
    } else if word == seq!['t', 'r', 'y', '-', 'i', 'n', 'l', 'i', 'n', 'e'] {
        Some(SpecToken::TryInline)
    } else if word == seq!['f', 'o', 'r', 'c', 'e', '-', 'i', 'n', 'l', 'i', 'n', 'e'] {
        Some(SpecToken::ForceInline)
    } else {
        None
    }
}

/// The token of a single punctuation character, if any.
pub open spec fn punctuation(c: char) -> Option<SpecToken> {
    if c == '{' {
        Some(SpecToken::OpenCurlyBracket)
    } else if c == '}' {
        Some(SpecToken::CloseCurlyBracket)
    } else if c == '(' {
        Some(SpecToken::OpenBracket)
    } else if c == ')' {
        Some(SpecToken::CloseBracket)
    } else if c == '[' {
        Some(SpecToken::OpenSquareBracket)
    } else if c == ']' {
        Some(SpecToken::CloseSquareBracket)
    } else if c == ';' {
        Some(SpecToken::Semicolon)
    } else if c == ':' {
        Some(SpecToken::Colon)
    } else if c == '/' {
        Some(SpecToken::Slash)
    } else if c == '*' {
        Some(SpecToken::Asterisk)
    } else if c == '+' {
        Some(SpecToken::Plus)
    } else if c == '-' {
        Some(SpecToken::Minus)
    } else if c == '&' {
        Some(SpecToken::Ampersand)
    } else if c == ',' {
        Some(SpecToken::Comma)
    } else if c == '=' {
        Some(SpecToken::Equals)
    } else if c == '!' {
        Some(SpecToken::ExclamationMark)
    } else if c == '#' {
        Some(SpecToken::Hash)
    } else {
        None
    }
}

/// Reads the next token: the held-back one, or else one from the characters.
#[verifier::opaque]
pub open spec fn spec_read_token(s: LexState) -> (LexState, Result<SpecToken, SpecLexerError>) {
    match s.cached {
        Some(t) => (s.with_cached(None), Ok(t)),
        None => {
            let (s1, r) = spec_next_sig_char(s);
            match r {
                Err(e) => (s1, Err(e)),
                Ok(first) => if is_identifier_first(first) {
                    let (s2, r2) = spec_read_word(s1, first);
                    match r2 {
                        Err(e) => (s2, Err(e)),
                        Ok(word) => match keyword(word) {
                            Some(t) => (s2, Ok(t)),
                            None => if word.contains('-') {
                                (s2, Err(SpecLexerError::IllegalIdentifier(word)))
                            } else {
                                (s2, Ok(SpecToken::Identifier(word)))
                            },
                        },
                    }
                } else if is_digit(first) {
                    let (s2, r2) = spec_read_number(s1, first);
                    match r2 {
                        Err(e) => (s2, Err(e)),
                        Ok(number) => if number.last() == 'f' {
                            (s2, Ok(SpecToken::Real(number)))
                        } else {
                            (s2, Ok(SpecToken::Literal(number)))
                        },
                    }
                } else {
                    match punctuation(first) {
                        Some(t) => (s1, Ok(t)),
                        None => (s1, Err(SpecLexerError::UnrecognisedCharacter(first))),
                    }
                },
            }
        },
    }
}

/// Looks at the next token and holds it back, so that the next read gives it.
#[verifier::opaque]
pub open spec fn spec_peek_token(s: LexState) -> (LexState, Result<SpecToken, SpecLexerError>) {
    match s.cached {
        Some(t) => (s, Ok(t)),
        None => {
            let (s1, r) = spec_read_token(s);
            match r {
                Ok(t) => (s1.with_cached(Some(t)), Ok(t)),
                Err(e) => (s1, Err(e)),
            }
        },
    }
}

/// Reads characters up to and including the next line feed.
pub open spec fn spec_skip_line(s: LexState) -> (LexState, Result<(), SpecLexerError>)
    decreases s.measure(),
{
    let (s1, r) = spec_read_char(s);
    match r {
        Ok(c) => if c == '\n' {
            (s1, Ok(()))
        } else {
            proof {
                lemma_read_char_measure(s);
            }
            spec_skip_line(s1)
        },
        Err(e) => (s1, Err(e)),
    }
}

/// Drops the held-back `#` once its line has been read.
pub open spec fn finish_shebang(skipped: (LexState, Result<(), SpecLexerError>)) -> (
    LexState,
    Result<bool, SpecLexerError>,
) {
    match skipped.1 {
        Ok(_) => (skipped.0.with_cached(None), Ok(true)),
        Err(e) => (skipped.0, Err(e)),
    }
}

/// With a `#` held back: drops it and the rest of its line where the next
/// significant character is `!`.
pub open spec fn spec_try_eat_shebang(s: LexState) -> (LexState, Result<bool, SpecLexerError>) {
    if s.cached != Some(SpecToken::Hash) {
        (s, Ok(false))
    } else {
        let (s1, r) = spec_next_sig_char(s);
        match r {
            Err(e) => (s1, Err(e)),
            Ok(c) => if c != '!' {
                (s1.push_back(c), Ok(false))
            } else {
                finish_shebang(spec_skip_line(s1))
            },
        }
    }
}

// ---------------------------------------------------------------------------
// How reads move the measure
// ---------------------------------------------------------------------------

proof fn lemma_skip_whitespace_measure(s: LexState)
    ensures
        spec_skip_whitespace(s).0.measure() <= s.measure(),
        spec_skip_whitespace(s).1 is Ok ==> spec_skip_whitespace(s).0.measure() + 2 <= s.measure(),
        spec_skip_whitespace(s).0.cached == s.cached,
        spec_skip_whitespace(s).0.input == s.input,
        spec_skip_whitespace(s).0.pending == s.pending,
    decreases s.measure(),
{
    lemma_read_source_char_measure(s);
    let (s1, r) = spec_read_source_char(s);
    if let Ok(c) = r {
        if is_white_space(c) {
            lemma_skip_whitespace_measure(s1);
        }
    }
}

proof fn lemma_next_sig_char_measure(s: LexState)
    ensures
        spec_next_sig_char(s).0.measure() <= s.measure(),
        spec_next_sig_char(s).1 is Ok ==> spec_next_sig_char(s).0.measure() + 2 <= s.measure(),
        spec_next_sig_char(s).0.cached == s.cached,
        spec_next_sig_char(s).0.input == s.input,
{
    lemma_skip_whitespace_measure(s);
}

proof fn lemma_word_loop_measure(s: LexState, buf: Seq<char>, no_letter: bool, current: char)
    ensures
        spec_word_loop(s, buf, no_letter, current).0.measure() <= s.measure() + 2,
        is_identifier_rest(current) ==> spec_word_loop(s, buf, no_letter, current).0.measure()
            <= s.measure(),
        spec_word_loop(s, buf, no_letter, current).0.cached == s.cached,
        spec_word_loop(s, buf, no_letter, current).0.input == s.input,
    decreases s.measure(),
{
    if is_identifier_rest(current) {
        lemma_read_char_measure(s);
        let (s1, r) = spec_read_char(s);
        if let Ok(c) = r {
            lemma_word_loop_measure(s1, buf.push(current), no_letter && !is_letter(current), c);
        }
    }
}

proof fn lemma_number_loop_measure(s: LexState, buf: Seq<char>, seen_period: bool, current: char)
    ensures
        spec_number_loop(s, buf, seen_period, current).0.measure() <= s.measure(),
        (is_digit(current) || current == '.') && !(current == '.' && seen_period)
            && spec_number_loop(s, buf, seen_period, current).1 is Ok ==> spec_number_loop(s, buf, seen_period, current).0.measure() + 2 <= s.measure(),
        spec_number_loop(s, buf, seen_period, current).0.cached == s.cached,
        spec_number_loop(s, buf, seen_period, current).0.input == s.input,
    decreases s.measure(),
{
    if is_digit(current) || current == '.' {
        if !(current == '.' && seen_period) {
            lemma_read_char_measure(s);
            let (s1, r) = spec_read_char(s);
            if let Ok(c) = r {
                lemma_number_loop_measure(s1, buf.push(current), seen_period || current == '.', c);
            }
        }
    }
}

proof fn lemma_read_number_measure(s: LexState, first: char)
    requires
        is_digit(first),
    ensures
        spec_read_number(s, first).0.measure() <= s.measure(),
        spec_read_number(s, first).0.cached == s.cached,
        spec_read_number(s, first).0.input == s.input,
{
    lemma_number_loop_measure(s, Seq::empty(), false, first);
    let (s1, r) = spec_number_loop(s, Seq::empty(), false, first);
    lemma_read_char_measure(s1);
}

/// A token read lowers the measure where it succeeds and raises it nowhere; it
/// leaves no token held back.
pub proof fn lemma_read_token_measure(s: LexState)
    ensures
        spec_read_token(s).0.measure() <= s.measure(),
        spec_read_token(s).1 is Ok ==> spec_read_token(s).0.measure() < s.measure(),
        spec_read_token(s).0.cached is None,
        spec_read_token(s).0.input == s.input,
{
    reveal(spec_read_token);
    if s.cached is None {
        lemma_next_sig_char_measure(s);
        let (s1, r) = spec_next_sig_char(s);
        if let Ok(first) = r {
            if is_identifier_first(first) {
                lemma_word_loop_measure(s1, Seq::empty(), true, first);
            } else if is_digit(first) {
                lemma_read_number_measure(s1, first);
            }
        }
    }
}

/// A peek raises the measure nowhere; where it succeeds it holds the token back,
/// and consuming that token lowers the measure below where the peek began.
pub proof fn lemma_peek_token_measure(s: LexState)
    ensures
        spec_peek_token(s).0.measure() <= s.measure(),
        spec_peek_token(s).1 matches Ok(t) ==> spec_peek_token(s).0.cached == Some(t),
        spec_peek_token(s).1 is Ok ==> spec_peek_token(s).0.with_cached(None).measure()
            < s.measure(),
        spec_peek_token(s).0.input == s.input,
{
    reveal(spec_peek_token);
    lemma_read_token_measure(s);
}

/// Reading with a token held back gives that token and drops it.
pub proof fn lemma_read_cached(s: LexState)
    requires
        s.cached is Some,
    ensures
        spec_read_token(s) == (s.with_cached(None), Ok::<SpecToken, SpecLexerError>(s.cached->0)),
{
    reveal(spec_read_token);
}

/// Peeking with a token held back gives that token and changes nothing.
pub proof fn lemma_peek_cached(s: LexState)
    requires
        s.cached is Some,
    ensures
        spec_peek_token(s) == (s, Ok::<SpecToken, SpecLexerError>(s.cached->0)),
{
    reveal(spec_peek_token);
}

proof fn lemma_skip_line_measure(s: LexState)
    ensures
        spec_skip_line(s).0.measure() <= s.measure(),
        spec_skip_line(s).0.cached == s.cached,
        spec_skip_line(s).0.input == s.input,
    decreases s.measure(),
{
    lemma_read_char_measure(s);
    let (s1, r) = spec_read_char(s);
    if let Ok(c) = r {
        if c != '\n' {
            lemma_skip_line_measure(s1);
        }
    }
}

/// Dropping a shebang lowers the measure; not finding one raises it nowhere.
pub proof fn lemma_try_eat_shebang_measure(s: LexState)
    ensures
        spec_try_eat_shebang(s).0.measure() <= s.measure(),
        spec_try_eat_shebang(s).1 == Ok::<bool, SpecLexerError>(true)
            ==> spec_try_eat_shebang(s).0.measure() < s.measure(),
        spec_try_eat_shebang(s).1 == Ok::<bool, SpecLexerError>(false)
            ==> spec_try_eat_shebang(s).0.cached == s.cached,
        spec_try_eat_shebang(s).0.input == s.input,
{
    if s.cached == Some(SpecToken::Hash) {
        lemma_next_sig_char_measure(s);
        let (s1, r) = spec_next_sig_char(s);
        if let Ok(c) = r {
            if c == '!' {
                lemma_skip_line_measure(s1);
            }
        }
    }
}

// ---------------------------------------------------------------------------
// The lexer
// ---------------------------------------------------------------------------

/// Reads tokens from a source of bytes.
pub struct Lexer {
    source: Vec<u8>,
    pos: usize,
    cached: Option<Token>,
    cached_chars: Vec<char>,
}

impl View for Lexer {
    type V = LexState;

    closed spec fn view(&self) -> LexState {
        LexState {
            input: self.source@,
            pos: self.pos as int,
            cached: match self.cached {
                Some(t) => Some(t@),
                None => None,
            },
            pending: self.cached_chars@,
        }
    }
}

impl Lexer {
    /// A lexer at the start of `source`.
    pub fn new(source: Vec<u8>) -> (res: Self)
        ensures
            res@ == (LexState { input: source@, pos: 0, cached: None, pending: Seq::empty() }),
    {
        let res = Lexer { source, pos: 0, cached: None, cached_chars: Vec::new() };
        proof {
            assert(res@.pending =~= Seq::<char>::empty());
        }
        res
    }

    fn read_source_char(&mut self) -> (res: Result<char, LexerError>)
        ensures
            (final(self)@, char_result_view(res)) == spec_read_source_char(old(self)@),
    {
        let len = self.source.len();
        if self.pos >= len {
            self.pos = len;
            return Err(LexerError::UnexpectedEndOfInput);
        }
        let b = self.source[self.pos];
        if b < 128 {
            self.pos = self.pos + 1;
            if disallowed_ascii(b) {
                return Err(LexerError::DisallowedASCIIChar(b));
            }
            return Ok(b as char);
        }
        let w = sequence_width(b);
        if w == 0 {
            self.pos = self.pos + 1;
            return Err(LexerError::ZeroLengthByte(b));
        }
        if w > len - self.pos {
            self.pos = len;
            return Err(LexerError::UnexpectedEndOfInput);
        }
        let start = self.pos;
        let mut bytes: Vec<u8> = Vec::new();
        let mut i: usize = 0;
        while i < w
            invariant
                start + w <= self.source.len(),
                i <= w,
                bytes@ =~= self.source@.subrange(start as int, start + i),
            decreases w - i,
        {
            bytes.push(self.source[start + i]);
            i = i + 1;
        }
        self.pos = start + w;
        match decode_sequence(&bytes) {
            Some(c) => Ok(c),
            None => Err(LexerError::InvalidByteSequence(bytes)),
        }
    }

    fn read_char(&mut self) -> (res: Result<char, LexerError>)
        ensures
            (final(self)@, char_result_view(res)) == spec_read_char(old(self)@),
    {
        if self.cached_chars.len() > 0 {
            let c = self.cached_chars.pop().unwrap();
            return Ok(c);
        }
        self.read_source_char()
    }

    fn next_sig_char(&mut self) -> (res: Result<char, LexerError>)
        ensures
            (final(self)@, char_result_view(res)) == spec_next_sig_char(old(self)@),
    {
        if self.cached_chars.len() > 0 {
            let c = self.cached_chars.pop().unwrap();
            return Ok(c);
        }
        let ghost start = self@;
        loop
            invariant
                start == old(self)@,
                self@.pending.len() == 0,
                spec_skip_whitespace(self@) == spec_skip_whitespace(start),
                spec_next_sig_char(start) == spec_skip_whitespace(start),
            decreases self@.measure(),
        {
            let ghost before = self@;
            proof {
                lemma_read_source_char_measure(before);
            }
            let r = self.read_source_char();
            assert(spec_skip_whitespace(before) == match spec_read_source_char(before).1 {
                Ok(c) => if is_white_space(c) {
                    spec_skip_whitespace(spec_read_source_char(before).0)
                } else {
                    (spec_read_source_char(before).0, Ok(c))
                },
                Err(e) => (spec_read_source_char(before).0, Err(e)),
            });
            match r {
                Err(e) => return Err(e),
                Ok(c) => {
                    if !is_whitespace(c) {
                        return Ok(c);
                    }
                },
            }
        }
    }

    fn push_back(&mut self, c: char)
        ensures
            final(self)@ == old(self)@.push_back(c),
    {
        self.cached_chars.push(c);
    }

    /// Reads the word that starts with `first`, already read.
    fn read_word(&mut self, first: char) -> (res: Result<Vec<char>, LexerError>)
        requires
            is_identifier_first(first),
        ensures
            (final(self)@, chars_result_view(res)) == spec_read_word(old(self)@, first),
    {
        let ghost start = old(self)@;
        let mut buf: Vec<char> = Vec::new();
        let mut no_letter = true;
        let mut current = first;
        while is_valid_for_identifier_rest(current)
            invariant
                start == old(self)@,
                spec_word_loop(self@, buf@, no_letter, current) == spec_read_word(start, first),
            decreases self@.measure(),
        {
            let ghost before = self@;
            proof {
                lemma_read_char_measure(before);
            }
            if no_letter && is_ascii_letter(current) {
                no_letter = false;
            }
            buf.push(current);
            match self.read_char() {
                Err(e) => return Err(e),
                Ok(c) => {
                    current = c;
                },
            }
        }
        if !is_whitespace(current) {
            self.push_back(current);
        }
        if no_letter {
            return Err(LexerError::invalid_identifier(string_from_chars(&buf), false));
        }
        Ok(buf)
    }

    /// Reads the number that starts with `first`, already read.
    fn read_number(&mut self, first: char) -> (res: Result<Vec<char>, LexerError>)
        requires
            is_digit(first),
        ensures
            (final(self)@, chars_result_view(res)) == spec_read_number(old(self)@, first),
            res matches Ok(v) ==> v@.len() > 0,
    {
        let ghost start = old(self)@;
        let mut buf: Vec<char> = Vec::new();
        let mut two_periods = false;
        let mut seen_period = false;
        let mut current = first;
        while is_ascii_digit(current) || current == '.'
            invariant_except_break
                start == old(self)@,
                is_digit(first),
                buf@.len() > 0 || current == first,
                spec_number_loop(self@, buf@, seen_period, current) == spec_number_loop(
                    start,
                    Seq::empty(),
                    false,
                    first,
                ),
                !two_periods,
            ensures
                start == old(self)@,
                buf@.len() > 0,
                spec_number_loop(start, Seq::empty(), false, first) == (
                    self@,
                    Ok::<NumberScan, SpecLexerError>(
                        NumberScan { buf: buf@, two_periods, seen_period, current },
                    ),
                ),
            decreases self@.measure(),
        {
            let ghost before = self@;
            proof {
                lemma_read_char_measure(before);
            }
            buf.push(current);
            if current == '.' {
                if seen_period {
                    two_periods = true;
                    break;
                }
                seen_period = true;
            }
            match self.read_char() {
                Err(e) => return Err(e),
                Ok(c) => {
                    current = c;
                },
            }
        }
        if two_periods {
            return Err(LexerError::InvalidNumber(string_from_chars(&buf)));
        }
        if seen_period && current != 'f' {
            return Err(LexerError::UnexpectedCharacter { expected: 'f', actual: current });
        }
        if current == 'f' {
            buf.push('f');
            let next = match self.read_char() {
                Err(e) => return Err(e),
                Ok(c) => c,
            };
            if is_whitespace(next) {
                return Ok(buf);
            }
            if follows_real(next) {
                self.push_back(next);
                return Ok(buf);
            }
            return Err(LexerError::UnexpectedAfterReal { literal: string_from_chars(&buf), next });
        }
        if !is_whitespace(current) {
            self.push_back(current);
        }
        Ok(buf)
    }

    /// Reads the next token, taking the held-back one first.
    pub fn read_token(&mut self) -> (res: Result<Token, LexerError>)
        ensures
            (final(self)@, token_result_view(res)) == spec_read_token(old(self)@),
    {
        proof {
            reveal(spec_read_token);
        }
        if self.cached.is_some() {
            let t = self.cached.take().unwrap();
            return Ok(t);
        }
        let first = match self.next_sig_char() {
            Err(e) => return Err(e),
            Ok(c) => c,
        };
        if is_valid_for_identifier_first(first) {
            let word = match self.read_word(first) {
                Err(e) => return Err(e),
                Ok(w) => w,
            };
            match keyword_of(&word) {
                Some(t) => return Ok(t),
                None => {},
            }
            let text = string_from_chars(&word);
            if contains_char(&word, '-') {
                return Err(LexerError::IllegalIdentifier(text));
            }
            return Ok(Token::Identifier(text));
        }
        if is_ascii_digit(first) {
            let number = match self.read_number(first) {
                Err(e) => return Err(e),
                Ok(n) => n,
            };
            let ends_with_f = number[number.len() - 1] == 'f';
            let text = string_from_chars(&number);
            if ends_with_f {
                return Ok(Token::Real(text));
            }
            return Ok(Token::Literal(text));
        }
        match punctuation_of(first) {
            Some(t) => Ok(t),
            None => Err(LexerError::UnrecognisedCharacter(first)),
        }
    }
}


impl Lexer {
    /// Looks at the next token without consuming it: the next read gives it again.
    pub fn peek_token(&mut self) -> (res: Result<&Token, LexerError>)
        ensures
            (final(self)@, match res {
                Ok(t) => Ok(t@),
                Err(e) => Err(e@),
            }) == spec_peek_token(old(self)@),
    {
        proof {
            reveal(spec_peek_token);
        }
        if self.cached.is_none() {
            match self.read_token() {
                Ok(t) => {
                    self.cached = Some(t);
                },
                Err(e) => return Err(e),
            }
        }
        Ok(self.cached.as_ref().unwrap())
    }

    /// Called with a `#` held back by a peek: where the next significant
    /// character is `!`, drops the `#` and the rest of its line (a shebang) and
    /// returns `true`; otherwise pushes that character back and returns `false`.
    pub fn try_eat_shebang(&mut self) -> (res: Result<bool, LexerError>)
        ensures
            (final(self)@, match res {
                Ok(b) => Ok(b),
                Err(e) => Err(e@),
            }) == spec_try_eat_shebang(old(self)@),
    {
        match self.cached {
            Some(Token::Hash) => {},
            _ => return Ok(false),
        }
        let c = match self.next_sig_char() {
            Err(e) => return Err(e),
            Ok(c) => c,
        };
        if c != '!' {
            self.push_back(c);
            return Ok(false);
        }
        let ghost start = self@;
        assert(spec_try_eat_shebang(old(self)@) == finish_shebang(spec_skip_line(start)));
        loop
            invariant_except_break
                spec_skip_line(self@) == spec_skip_line(start),
                spec_try_eat_shebang(old(self)@) == finish_shebang(spec_skip_line(start)),
            ensures
                spec_skip_line(start) == (self@, Ok::<(), SpecLexerError>(())),
                spec_try_eat_shebang(old(self)@) == finish_shebang(spec_skip_line(start)),
            decreases self@.measure(),
        {
            let ghost before = self@;
            proof {
                lemma_read_char_measure(before);
            }
            match self.read_char() {
                Err(e) => return Err(e),
                Ok(c) => {
                    if c == '\n' {
                        break;
                    }
                },
            }
        }
        self.cached = None;
        Ok(true)
    }
}

fn contains_char(v: &Vec<char>, c: char) -> (res: bool)
    ensures
        res == v@.contains(c),
{
    let n = v.len();
    for i in 0..n
        invariant
            n == v.len(),
            forall|j: int| 0 <= j < i ==> v@[j] != c,
    {
        if v[i] == c {
            return true;
        }
    }
    false
}

fn keyword_of(word: &Vec<char>) -> (res: Option<Token>)
    ensures
        match res {
            Some(t) => keyword(word@) == Some(t@),
            None => keyword(word@) is None,
        },
{
    if chars_equal(word, &['f', 'u', 'n', 'c', 't']) {
        Some(Token::Function)
    } else if chars_equal(word, &['u', 'n', 's', 'a', 'f', 'e']) {
        Some(Token::Unsafe)
    } else if chars_equal(word, &['e', 'x', 't', 'e', 'r', 'n']) {
        Some(Token::External)
    } else if chars_equal(word, &['c', 'o', 'n', 's', 't']) {
        Some(Token::Constant)
    } else if chars_equal(word, &['p', 'r', 'i', 'v', 'a', 't', 'e']) {
        Some(Token::Private)
    } else if chars_equal(word, &['r', 'e', 't', 'u', 'r', 'n']) {
        Some(Token::Return)
    } else if chars_equal(word, &['v', 'a', 'l']) {
        Some(Token::Val)
    } else if chars_equal(word, &['l', 'l', 'v', 'm', '-', 'c', 'o', 'l', 'd']) {
        Some(Token::Cold)
    } else if chars_equal(word, &['l', 'l', 'v', 'm', '-', 'h', 'o', 't']) {
        Some(Token::Hot)
    } else if chars_equal(word, &['s', 't', 'r', 'i', 'c', 't', '-', 'f', 'p']) {
        Some(Token::StrictFloatingPoint)
    } else if chars_equal(word, &['t', 'r', 'y', '-', 'i', 'n', 'l', 'i', 'n', 'e']) {
        Some(Token::TryInline)
    } else if chars_equal(word, &['f', 'o', 'r', 'c', 'e', '-', 'i', 'n', 'l', 'i', 'n', 'e']) {
        Some(Token::ForceInline)
    } else {
        None
    }
}

fn punctuation_of(c: char) -> (res: Option<Token>)
    ensures
        match res {
            Some(t) => punctuation(c) == Some(t@),
            None => punctuation(c) is None,
        },
{
    if c == '{' {
        Some(Token::OpenCurlyBracket)
    } else if c == '}' {
        Some(Token::CloseCurlyBracket)
    } else if c == '(' {
        Some(Token::OpenBracket)
    } else if c == ')' {
        Some(Token::CloseBracket)
    } else if c == '[' {
        Some(Token::OpenSquareBracket)
    } else if c == ']' {
        Some(Token::CloseSquareBracket)
    } else if c == ';' {
        Some(Token::Semicolon)
    } else if c == ':' {
        Some(Token::Colon)
    } else if c == '/' {
        Some(Token::Slash)
    } else if c == '*' {
        Some(Token::Asterisk)
    } else if c == '+' {
        Some(Token::Plus)
    } else if c == '-' {
        Some(Token::Minus)
    } else if c == '&' {
        Some(Token::Ampersand)
    } else if c == ',' {
        Some(Token::Comma)
    } else if c == '=' {
        Some(Token::Equals)
    } else if c == '!' {
        Some(Token::ExclamationMark)
    } else if c == '#' {
        Some(Token::Hash)
    } else {
        None
    }
}

} // verus!

verus! {

// ---------------------------------------------------------------------------
// The shape of tokens, and the laws of reading and peeking
// ---------------------------------------------------------------------------

/// `IDENTIFIER : IDENTIFIER_START IDENTIFIER_REST*`, holding at least one letter.
pub open spec fn is_identifier_text(w: Seq<char>) -> bool {
    &&& w.len() > 0
    &&& is_identifier_first(w[0])
    &&& forall|i: int| 1 <= i < w.len() ==> is_letter(#[trigger] w[i]) || is_digit(w[i]) || w[i] == '_'
    &&& exists|i: int| 0 <= i < w.len() && is_letter(#[trigger] w[i])
}

/// `NUM+`: the literals that the lexer gives.
pub open spec fn is_literal_text(n: Seq<char>) -> bool {
    &&& n.len() > 0
    &&& forall|i: int| 0 <= i < n.len() ==> is_digit(#[trigger] n[i])
}

/// Digits with at most one period among them, starting with a digit.
pub open spec fn is_decimal_text(d: Seq<char>) -> bool {
    &&& d.len() > 0
    &&& is_digit(d[0])
    &&& forall|i: int| 0 <= i < d.len() ==> is_digit(#[trigger] d[i]) || d[i] == '.'
    &&& forall|i: int, j: int| 0 <= i < d.len() && 0 <= j < d.len() && #[trigger] d[i] == '.' && #[trigger] d[j] == '.' ==> i == j
}

/// A number followed by `f`: the reals that the lexer gives.
pub open spec fn is_real_text(r: Seq<char>) -> bool {
    &&& r.len() > 0
    &&& r.last() == 'f'
    &&& is_decimal_text(r.drop_last())
}

/// Whether a token's text has the shape that its kind asks for.
pub open spec fn token_well_formed(t: SpecToken) -> bool {
    match t {
        SpecToken::Identifier(w) => is_identifier_text(w),
        SpecToken::Literal(n) => is_literal_text(n),
        SpecToken::Real(r) => is_real_text(r),
        _ => true,
    }
}

/// A token held back by a peek has the shape of its kind.
pub open spec fn cached_well_formed(s: LexState) -> bool {
    s.cached matches Some(t) ==> token_well_formed(t)
}

#[verifier::spinoff_prover]
proof fn lemma_word_loop_shape(s: LexState, buf: Seq<char>, no_letter: bool, current: char)
    requires
        buf.len() == 0 ==> is_identifier_first(current),
        buf.len() > 0 ==> is_identifier_first(buf[0]),
        forall|i: int| 0 <= i < buf.len() ==> is_identifier_rest(#[trigger] buf[i]),
        no_letter <==> !(exists|i: int| 0 <= i < buf.len() && is_letter(#[trigger] buf[i])),
    ensures
        spec_word_loop(s, buf, no_letter, current).1 matches Ok(w) ==> {
            &&& w.len() > 0
            &&& is_identifier_first(w[0])
            &&& forall|i: int| 0 <= i < w.len() ==> is_identifier_rest(#[trigger] w[i])
            &&& exists|i: int| 0 <= i < w.len() && is_letter(#[trigger] w[i])
        },
    decreases s.measure(),
{
    if is_identifier_rest(current) {
        lemma_read_char_measure(s);
        let (s1, r) = spec_read_char(s);
        if let Ok(c) = r {
            let b = buf.push(current);
            assert(b[buf.len() as int] == current);
            assert forall|i: int| 0 <= i < b.len() implies is_identifier_rest(#[trigger] b[i]) by {
                if i < buf.len() {
                    assert(b[i] == buf[i]);
                }
            }
            if no_letter && !is_letter(current) {
                assert forall|i: int| 0 <= i < b.len() implies !is_letter(#[trigger] b[i]) by {
                    if i < buf.len() {
                        assert(b[i] == buf[i]);
                    }
                }
            } else if is_letter(current) {
                assert(is_letter(b[buf.len() as int]));
            } else {
                let k = choose|i: int| 0 <= i < buf.len() && is_letter(#[trigger] buf[i]);
                assert(b[k] == buf[k]);
            }
            lemma_word_loop_shape(s1, b, no_letter && !is_letter(current), c);
        }
    }
}

/// The digits and periods of a number so far: digits first, at most one
/// period, and `seen_period` telling whether there is one.
spec fn number_prefix(buf: Seq<char>, seen_period: bool, current: char) -> bool {
    &&& buf.len() == 0 ==> is_digit(current)
    &&& buf.len() > 0 ==> is_digit(buf[0])
    &&& forall|i: int| 0 <= i < buf.len() ==> is_digit(#[trigger] buf[i]) || buf[i] == '.'
    &&& forall|i: int, j: int|
        0 <= i < buf.len() && 0 <= j < buf.len() && #[trigger] buf[i] == '.' && #[trigger] buf[j] == '.'
            ==> i == j
    &&& seen_period <==> (exists|i: int| 0 <= i < buf.len() && #[trigger] buf[i] == '.')
}

#[verifier::spinoff_prover]
proof fn lemma_number_prefix_push(buf: Seq<char>, seen_period: bool, current: char, next: char)
    requires
        number_prefix(buf, seen_period, current),
        is_digit(current) || current == '.',
        !(current == '.' && seen_period),
    ensures
        number_prefix(buf.push(current), seen_period || current == '.', next),
{
    let b = buf.push(current);
    assert(b[buf.len() as int] == current);
    assert forall|i: int| 0 <= i < b.len() implies is_digit(#[trigger] b[i]) || b[i] == '.' by {
        if i < buf.len() {
            assert(b[i] == buf[i]);
        }
    }
    assert forall|i: int, j: int|
        0 <= i < b.len() && 0 <= j < b.len() && #[trigger] b[i] == '.' && #[trigger] b[j] == '.'
            implies i == j by {
        if i < buf.len() {
            assert(b[i] == buf[i]);
        }
        if j < buf.len() {
            assert(b[j] == buf[j]);
        }
        if i < buf.len() && j == buf.len() {
            assert(seen_period);
        }
        if j < buf.len() && i == buf.len() {
            assert(seen_period);
        }
    }
    if seen_period {
        let k = choose|i: int| 0 <= i < buf.len() && #[trigger] buf[i] == '.';
        assert(b[k] == buf[k]);
    } else if current == '.' {
        assert(b[buf.len() as int] == '.');
    } else {
        assert forall|i: int| 0 <= i < b.len() implies #[trigger] b[i] != '.' by {
            if i < buf.len() {
                assert(b[i] == buf[i]);
            }
        }
    }
    if buf.len() > 0 {
        assert(b[0] == buf[0]);
    }
}

#[verifier::spinoff_prover]
proof fn lemma_number_loop_shape(s: LexState, buf: Seq<char>, seen_period: bool, current: char)
    requires
        number_prefix(buf, seen_period, current),
    ensures
        spec_number_loop(s, buf, seen_period, current).1 matches Ok(scan) ==> !scan.two_periods ==> {
            &&& is_decimal_text(scan.buf)
            &&& (scan.seen_period <==> (exists|i: int| 0 <= i < scan.buf.len() && #[trigger] scan.buf[i] == '.'))
            &&& !is_digit(scan.current)
            &&& scan.current != '.'
        },
    decreases s.measure(),
{
    if is_digit(current) || current == '.' {
        if !(current == '.' && seen_period) {
            lemma_read_char_measure(s);
            let (s1, r) = spec_read_char(s);
            if let Ok(c) = r {
                lemma_number_prefix_push(buf, seen_period, current, c);
                lemma_number_loop_shape(s1, buf.push(current), seen_period || current == '.', c);
            }
        }
    }
}

proof fn lemma_read_number_shape(s: LexState, first: char)
    requires
        is_digit(first),
    ensures
        spec_read_number(s, first).1 matches Ok(n) ==> (n.last() == 'f' && is_real_text(n)) || (
        n.last() != 'f' && is_literal_text(n)),
{
    lemma_number_loop_shape(s, Seq::empty(), false, first);
    let (s1, r) = spec_number_loop(s, Seq::empty(), false, first);
    if let Ok(scan) = r {
        if !scan.two_periods && scan.current == 'f' {
            let lit = scan.buf.push('f');
            assert(lit.drop_last() =~= scan.buf);
        } else if !scan.two_periods && !scan.seen_period {
            assert forall|i: int| 0 <= i < scan.buf.len() implies is_digit(#[trigger] scan.buf[i]) by {
                assert(is_digit(scan.buf[i]) || scan.buf[i] == '.');
            }
        }
    }
}

/// Every token that the lexer reads has the shape of its kind: an identifier
/// is `IDENTIFIER_START IDENTIFIER_REST*` with a letter in it, a literal is
/// one or more digits, and a real is digits with at most one period among them
/// followed by `f`.
pub proof fn law_read_token_shape(s: LexState)
    requires
        cached_well_formed(s),
    ensures
        spec_read_token(s).1 matches Ok(t) ==> token_well_formed(t),
        cached_well_formed(spec_read_token(s).0),
{
    reveal(spec_read_token);
    lemma_read_token_measure(s);
    if s.cached is None {
        let (s1, r) = spec_next_sig_char(s);
        if let Ok(first) = r {
            if is_identifier_first(first) {
                lemma_word_loop_shape(s1, Seq::empty(), true, first);
                let (s2, r2) = spec_read_word(s1, first);
                if let Ok(word) = r2 {
                    if keyword(word) is None && !word.contains('-') {
                        assert forall|i: int| 1 <= i < word.len() implies is_letter(#[trigger] word[i])
                            || is_digit(word[i]) || word[i] == '_' by {
                            assert(is_identifier_rest(word[i]));
                            assert(word[i] != '-');
                        }
                    }
                }
            } else if is_digit(first) {
                lemma_read_number_shape(s1, first);
            }
        }
    }
}

/// What a peek gives is what a read would give, and the read that follows a
/// successful peek gives the same token and the same state as a read without
/// the peek.
pub proof fn law_peek_then_read(s: LexState)
    ensures
        spec_peek_token(s).1 == spec_read_token(s).1,
        spec_peek_token(s).1 is Ok ==> spec_read_token(spec_peek_token(s).0) == spec_read_token(s),
{
    reveal(spec_peek_token);
    reveal(spec_read_token);
    lemma_read_token_measure(s);
}

/// Peeking twice is peeking once.
pub proof fn law_peek_twice(s: LexState)
    ensures
        spec_peek_token(s).1 is Ok ==> spec_peek_token(spec_peek_token(s).0) == spec_peek_token(s),
{
    lemma_peek_token_measure(s);
    if spec_peek_token(s).1 is Ok {
        lemma_peek_cached(spec_peek_token(s).0);
    }
}

/// A peek keeps the shape of tokens too.
pub proof fn law_peek_token_shape(s: LexState)
    requires
        cached_well_formed(s),
    ensures
        spec_peek_token(s).1 matches Ok(t) ==> token_well_formed(t),
        cached_well_formed(spec_peek_token(s).0),
{
    reveal(spec_peek_token);
    law_read_token_shape(s);
}

} // verus!

verus! {

/// Looking for a shebang keeps the shape of the token held back.
pub proof fn lemma_try_eat_shebang_shape(s: LexState)
    requires
        cached_well_formed(s),
    ensures
        cached_well_formed(spec_try_eat_shebang(s).0),
{
    if s.cached == Some(SpecToken::Hash) {
        lemma_next_sig_char_measure(s);
        let (s1, r) = spec_next_sig_char(s);
        if let Ok(c) = r {
            if c == '!' {
                lemma_skip_line_measure(s1);
            }
        }
    }
}

/// Among ASCII characters, exactly space, tab, line feed, vertical tab, form
/// feed and carriage return are whitespace, as `char::is_whitespace` has it.
pub proof fn law_ascii_whitespace(c: char)
    requires
        (c as u32) < 128,
    ensures
        is_white_space(c) <==> (c == ' ' || c == '\t' || c == '\n' || c == '\u{b}' || c == '\u{c}' || c
            == '\r'),
{
}

/// Whitespace is never part of an identifier or a number.
pub proof fn law_whitespace_separates(c: char)
    requires
        is_white_space(c),
    ensures
        !is_identifier_first(c),
        !is_identifier_rest(c),
        !is_digit(c),
{
}

} // verus!

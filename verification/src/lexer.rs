//! Byte-driven finite-state lexer for a small expression-oriented language.
//!
//! `tokenize` walks the input left to right, one byte at a time, through an
//! explicit state machine.  Each state either consumes the byte, or emits a
//! finished token and re-offers the byte to the start state ("reconsume"),
//! which gives maximal-munch tokenization with a single byte of lookahead.
//! The whole machine is mirrored by a specification-level model
//! (`spec_tokenize`), and `tokenize` is proved to return exactly that model's
//! result.

use vstd::prelude::*;

verus! {

// The ASCII bytes the state machine dispatches on, by value.
pub const TAB: u8 = 9;
pub const LINE_FEED: u8 = 10;
pub const CARRIAGE_RETURN: u8 = 13;
pub const SPACE: u8 = 32;
pub const LEFT_PAREN: u8 = 40;
pub const RIGHT_PAREN: u8 = 41;
pub const ASTERISK_SIGN: u8 = 42;
pub const PLUS_SIGN: u8 = 43;
pub const COMMA_SIGN: u8 = 44;
pub const MINUS_SIGN: u8 = 45;
pub const DOT_SIGN: u8 = 46;
pub const SLASH_SIGN: u8 = 47;
pub const DIGIT_ZERO: u8 = 48;
pub const DIGIT_ONE: u8 = 49;
pub const DIGIT_SEVEN: u8 = 55;
pub const DIGIT_NINE: u8 = 57;
pub const COLON_SIGN: u8 = 58;
pub const SEMICOLON_SIGN: u8 = 59;
pub const EQUALS_SIGN: u8 = 61;
pub const GREATER_THAN: u8 = 62;
pub const UPPER_A: u8 = 65;
pub const UPPER_F: u8 = 70;
pub const UPPER_Z: u8 = 90;
pub const LEFT_BRACKET_SIGN: u8 = 91;
pub const RIGHT_BRACKET_SIGN: u8 = 93;
pub const UNDERSCORE: u8 = 95;
pub const LOWER_A: u8 = 97;
pub const LOWER_B: u8 = 98;
pub const LOWER_C: u8 = 99;
pub const LOWER_D: u8 = 100;
pub const LOWER_E: u8 = 101;
pub const LOWER_F: u8 = 102;
pub const LOWER_I: u8 = 105;
pub const LOWER_L: u8 = 108;
pub const LOWER_M: u8 = 109;
pub const LOWER_N: u8 = 110;
pub const LOWER_O: u8 = 111;
pub const LOWER_R: u8 = 114;
pub const LOWER_S: u8 = 115;
pub const LOWER_T: u8 = 116;
pub const LOWER_U: u8 = 117;
pub const LOWER_X: u8 = 120;
pub const LOWER_Z: u8 = 122;
pub const LEFT_BRACE_SIGN: u8 = 123;
pub const RIGHT_BRACE_SIGN: u8 = 125;

/// Lexer state: one variant per partially-read token shape.
pub enum State {
    Start,
    Identifier,
    Zero,
    Dot,
    Integer,
    Hexadecimal,
    Octal,
    Binary,
    Fractional,
    Exponent,
    Equals,
    Minus,
}

/// What the state machine did with the byte it was handed: consumed it, or
/// finished a token and asks for the same byte to be offered again.
pub enum Action {
    Continue,
    Again,
}

/// Failure kinds raised by the state machine itself; `feed_script` attaches
/// the byte offset and turns them into [`Error`].
pub enum InternalError {
    UnexpectedByte,
    InvalidNumberDigit,
    LeadingZeroWithoutBase,
    InvalidHexadecimalDigit,
    InvalidOctalDigit,
    InvalidBinaryDigit,
    MissingDigitsAfterBasePrefix,
}

/// An integer literal: the radix together with the ordered digit values
/// (values, not characters; every value is below the radix).
#[derive(Debug, PartialEq)]
pub enum IntegerRepresentation {
    Decimal(Vec<u8>),
    Hexadecimal(Vec<u8>),
    Octal(Vec<u8>),
    Binary(Vec<u8>),
}

/// A float literal: plain decimal or scientific, each field an ordered
/// sequence of base-10 digit values.  `integer` and `fractional` may be
/// empty; a lexed `Scientific` exponent is non-empty at end of input.
#[derive(Debug, PartialEq)]
pub enum FloatRepresentation {
    Decimal { integer: Vec<u8>, fractional: Vec<u8> },
    Scientific { integer: Vec<u8>, fractional: Vec<u8>, exponent: Vec<u8> },
}

/// One lexical token.  `EOF` is never produced by `tokenize`; the parser
/// uses it as the sentinel for reading past the end of the sequence.
#[derive(Debug, PartialEq)]
pub enum Token {
    Plus,
    Minus,
    Asterisk,
    ForwardSlash,
    Dot,
    Comma,
    Colon,
    Semicolon,
    Assign,
    Equals,
    RightArrow,
    LeftParenthesis,
    RightParenthesis,
    LeftBracket,
    RightBracket,
    LeftBrace,
    RightBrace,
    False,
    True,
    And,
    Or,
    Not,
    Xor,
    Else,
    Function,
    If,
    Let,
    Return,
    Lambda,
    Identifier(Box<Vec<u8>>),
    Integer(Box<IntegerRepresentation>),
    Float(Box<FloatRepresentation>),
    EOF,
}

/// A lexing failure, carrying the offset of the offending byte (the buffer
/// length, for failures detected only at end of input).
#[derive(Debug, PartialEq)]
pub enum Error {
    UnexpectedByte(usize),
    InvalidNumberDigit(usize),
    LeadingZeroWithoutBase(usize),
    InvalidHexadecimalDigit(usize),
    InvalidOctalDigit(usize),
    InvalidBinaryDigit(usize),
    MissingDigitsAfterBasePrefix(usize),
    MissingDigitsAfterExponentMark(usize),
}

/// Mathematical model of an [`IntegerRepresentation`].
pub enum IntegerView {
    Decimal(Seq<u8>),
    Hexadecimal(Seq<u8>),
    Octal(Seq<u8>),
    Binary(Seq<u8>),
}

/// Mathematical model of a [`FloatRepresentation`].
pub enum FloatView {
    Decimal { integer: Seq<u8>, fractional: Seq<u8> },
    Scientific { integer: Seq<u8>, fractional: Seq<u8>, exponent: Seq<u8> },
}

/// Mathematical model of a [`Token`].
pub enum TokenView {
    Plus,
    Minus,
    Asterisk,
    ForwardSlash,
    Dot,
    Comma,
    Colon,
    Semicolon,
    Assign,
    Equals,
    RightArrow,
    LeftParenthesis,
    RightParenthesis,
    LeftBracket,
    RightBracket,
    LeftBrace,
    RightBrace,
    False,
    True,
    And,
    Or,
    Not,
    Xor,
    Else,
    Function,
    If,
    Let,
    Return,
    Lambda,
    Identifier(Seq<u8>),
    Integer(IntegerView),
    Float(FloatView),
    EOF,
}

impl View for IntegerRepresentation {
    type V = IntegerView;

    open spec fn view(&self) -> IntegerView {
        match self {
            IntegerRepresentation::Decimal(digits) => IntegerView::Decimal(digits@),
            IntegerRepresentation::Hexadecimal(digits) => IntegerView::Hexadecimal(digits@),
            IntegerRepresentation::Octal(digits) => IntegerView::Octal(digits@),
            IntegerRepresentation::Binary(digits) => IntegerView::Binary(digits@),
        }
    }
}

impl View for FloatRepresentation {
    type V = FloatView;

    open spec fn view(&self) -> FloatView {
        match self {
            FloatRepresentation::Decimal { integer, fractional } => FloatView::Decimal {
                integer: integer@,
                fractional: fractional@,
            },
            FloatRepresentation::Scientific { integer, fractional, exponent } => (
                FloatView::Scientific {
                    integer: integer@,
                    fractional: fractional@,
                    exponent: exponent@,
                }
            ),
        }
    }
}

impl View for Token {
    type V = TokenView;

    open spec fn view(&self) -> TokenView {
        match self {
            Token::Plus => TokenView::Plus,
            Token::Minus => TokenView::Minus,
            Token::Asterisk => TokenView::Asterisk,
            Token::ForwardSlash => TokenView::ForwardSlash,
            Token::Dot => TokenView::Dot,
            Token::Comma => TokenView::Comma,
            Token::Colon => TokenView::Colon,
            Token::Semicolon => TokenView::Semicolon,
            Token::Assign => TokenView::Assign,
            Token::Equals => TokenView::Equals,
            Token::RightArrow => TokenView::RightArrow,
            Token::LeftParenthesis => TokenView::LeftParenthesis,
            Token::RightParenthesis => TokenView::RightParenthesis,
            Token::LeftBracket => TokenView::LeftBracket,
            Token::RightBracket => TokenView::RightBracket,
            Token::LeftBrace => TokenView::LeftBrace,
            Token::RightBrace => TokenView::RightBrace,
            Token::False => TokenView::False,
            Token::True => TokenView::True,
            Token::And => TokenView::And,
            Token::Or => TokenView::Or,
            Token::Not => TokenView::Not,
            Token::Xor => TokenView::Xor,
            Token::Else => TokenView::Else,
            Token::Function => TokenView::Function,
            Token::If => TokenView::If,
            Token::Let => TokenView::Let,
            Token::Return => TokenView::Return,
            Token::Lambda => TokenView::Lambda,
            Token::Identifier(name) => TokenView::Identifier(name@),
            Token::Integer(integer) => TokenView::Integer(integer@),
            Token::Float(float) => TokenView::Float(float@),
            Token::EOF => TokenView::EOF,
        }
    }
}

/// The models of a token sequence, in order.
pub open spec fn tokens_view(tokens: Seq<Token>) -> Seq<TokenView> {
    tokens.map_values(|token: Token| token@)
}

pub broadcast proof fn lemma_tokens_view_push(tokens: Seq<Token>, token: Token)
    ensures
        #[trigger] tokens_view(tokens.push(token)) == tokens_view(tokens).push(token@),
{
    assert(tokens_view(tokens.push(token)) =~= tokens_view(tokens).push(token@));
}

/// Mathematical model of the whole lexer: current state, the scratch digit
/// and identifier buffers, and the tokens emitted so far.
pub struct LexerModel {
    pub state: State,
    pub integer: Seq<u8>,
    pub fractional: Seq<u8>,
    pub exponent: Seq<u8>,
    pub identifier: Seq<u8>,
    pub tokens: Seq<TokenView>,
}

pub open spec fn is_whitespace_byte(byte: u8) -> bool {
    byte == SPACE || byte == TAB || byte == CARRIAGE_RETURN || byte == LINE_FEED
}

pub open spec fn is_letter_byte(byte: u8) -> bool {
    (UPPER_A <= byte && byte <= UPPER_Z) || (LOWER_A <= byte && byte <= LOWER_Z)
}

pub open spec fn is_digit_byte(byte: u8) -> bool {
    DIGIT_ZERO <= byte && byte <= DIGIT_NINE
}

/// Start state: skip whitespace, open the right state for identifiers and
/// numbers, emit single-character punctuation directly.
pub open spec fn spec_step_start(lx: LexerModel, byte: u8) -> Result<
    (LexerModel, Action),
    InternalError,
> {
    if is_whitespace_byte(byte) {
        Ok((lx, Action::Continue))
    } else if is_letter_byte(byte) || byte == UNDERSCORE {
        Ok(
            (
                LexerModel { state: State::Identifier, identifier: lx.identifier.push(byte), ..lx },
                Action::Continue,
            ),
        )
    } else if byte == DIGIT_ZERO {
        Ok((LexerModel { state: State::Zero, ..lx }, Action::Continue))
    } else if is_digit_byte(byte) {
        Ok(
            (
                LexerModel {
                    state: State::Integer,
                    integer: lx.integer.push((byte - DIGIT_ZERO) as u8),
                    ..lx
                },
                Action::Continue,
            ),
        )
    } else if byte == PLUS_SIGN {
        Ok((LexerModel { tokens: lx.tokens.push(TokenView::Plus), ..lx }, Action::Continue))
    } else if byte == MINUS_SIGN {
        Ok((LexerModel { state: State::Minus, ..lx }, Action::Continue))
    } else if byte == ASTERISK_SIGN {
        Ok((LexerModel { tokens: lx.tokens.push(TokenView::Asterisk), ..lx }, Action::Continue))
    } else if byte == SLASH_SIGN {
        Ok((LexerModel { tokens: lx.tokens.push(TokenView::ForwardSlash), ..lx }, Action::Continue))
    } else if byte == DOT_SIGN {
        Ok((LexerModel { state: State::Dot, ..lx }, Action::Continue))
    } else if byte == COMMA_SIGN {
        Ok((LexerModel { tokens: lx.tokens.push(TokenView::Comma), ..lx }, Action::Continue))
    } else if byte == COLON_SIGN {
        Ok((LexerModel { tokens: lx.tokens.push(TokenView::Colon), ..lx }, Action::Continue))
    } else if byte == SEMICOLON_SIGN {
        Ok((LexerModel { tokens: lx.tokens.push(TokenView::Semicolon), ..lx }, Action::Continue))
    } else if byte == EQUALS_SIGN {
        Ok((LexerModel { state: State::Equals, ..lx }, Action::Continue))
    } else if byte == LEFT_PAREN {
        Ok(
            (
                LexerModel { tokens: lx.tokens.push(TokenView::LeftParenthesis), ..lx },
                Action::Continue,
            ),
        )
    } else if byte == RIGHT_PAREN {
        Ok(
            (
                LexerModel { tokens: lx.tokens.push(TokenView::RightParenthesis), ..lx },
                Action::Continue,
            ),
        )
    } else if byte == LEFT_BRACKET_SIGN {
        Ok((LexerModel { tokens: lx.tokens.push(TokenView::LeftBracket), ..lx }, Action::Continue))
    } else if byte == RIGHT_BRACKET_SIGN {
        Ok((LexerModel { tokens: lx.tokens.push(TokenView::RightBracket), ..lx }, Action::Continue))
    } else if byte == LEFT_BRACE_SIGN {
        Ok((LexerModel { tokens: lx.tokens.push(TokenView::LeftBrace), ..lx }, Action::Continue))
    } else if byte == RIGHT_BRACE_SIGN {
        Ok((LexerModel { tokens: lx.tokens.push(TokenView::RightBrace), ..lx }, Action::Continue))
    } else {
        Err(InternalError::UnexpectedByte)
    }
}

/// The keyword table: an accumulated identifier spelling either matches one
/// of the fixed keywords or stays an identifier.
pub open spec fn spec_classify(name: Seq<u8>) -> TokenView {
    if name.len() == 3 && name[0] == LOWER_A && name[1] == LOWER_N && name[2] == LOWER_D {
        TokenView::And
    } else if name.len() == 4 && name[0] == LOWER_E && name[1] == LOWER_L && name[2] == LOWER_S
        && name[3] == LOWER_E {
        TokenView::Else
    } else if name.len() == 5 && name[0] == LOWER_F && name[1] == LOWER_A && name[2] == LOWER_L
        && name[3] == LOWER_S && name[4] == LOWER_E {
        TokenView::False
    } else if name.len() == 8 && name[0] == LOWER_F && name[1] == LOWER_U && name[2] == LOWER_N
        && name[3] == LOWER_C && name[4] == LOWER_T && name[5] == LOWER_I && name[6] == LOWER_O
        && name[7] == LOWER_N {
        TokenView::Function
    } else if name.len() == 2 && name[0] == LOWER_I && name[1] == LOWER_F {
        TokenView::If
    } else if name.len() == 6 && name[0] == LOWER_L && name[1] == LOWER_A && name[2] == LOWER_M
        && name[3] == LOWER_B && name[4] == LOWER_D && name[5] == LOWER_A {
        TokenView::Lambda
    } else if name.len() == 3 && name[0] == LOWER_L && name[1] == LOWER_E && name[2] == LOWER_T {
        TokenView::Let
    } else if name.len() == 3 && name[0] == LOWER_N && name[1] == LOWER_O && name[2] == LOWER_T {
        TokenView::Not
    } else if name.len() == 2 && name[0] == LOWER_O && name[1] == LOWER_R {
        TokenView::Or
    } else if name.len() == 6 && name[0] == LOWER_R && name[1] == LOWER_E && name[2] == LOWER_T
        && name[3] == LOWER_U && name[4] == LOWER_R && name[5] == LOWER_N {
        TokenView::Return
    } else if name.len() == 4 && name[0] == LOWER_T && name[1] == LOWER_R && name[2] == LOWER_U
        && name[3] == LOWER_E {
        TokenView::True
    } else if name.len() == 3 && name[0] == LOWER_X && name[1] == LOWER_O && name[2] == LOWER_R {
        TokenView::Xor
    } else {
        TokenView::Identifier(name)
    }
}

/// Identifier state: letters, digits and underscores extend the spelling;
/// anything else closes it, classifies it, and is reconsumed.
pub open spec fn spec_step_identifier(lx: LexerModel, byte: u8) -> Result<
    (LexerModel, Action),
    InternalError,
> {
    if is_digit_byte(byte) || is_letter_byte(byte) || byte == UNDERSCORE {
        Ok((LexerModel { identifier: lx.identifier.push(byte), ..lx }, Action::Continue))
    } else {
        Ok(
            (
                LexerModel {
                    state: State::Start,
                    identifier: Seq::empty(),
                    tokens: lx.tokens.push(spec_classify(lx.identifier)),
                    ..lx
                },
                Action::Again,
            ),
        )
    }
}

/// Zero state: a leading `0` either opens a radix prefix, starts `0.`, is
/// rejected before another digit or letter, or stands alone as the literal
/// zero.
pub open spec fn spec_step_zero(lx: LexerModel, byte: u8) -> Result<
    (LexerModel, Action),
    InternalError,
> {
    if byte == LOWER_X {
        Ok((LexerModel { state: State::Hexadecimal, ..lx }, Action::Continue))
    } else if byte == LOWER_O {
        Ok((LexerModel { state: State::Octal, ..lx }, Action::Continue))
    } else if byte == LOWER_B {
        Ok((LexerModel { state: State::Binary, ..lx }, Action::Continue))
    } else if byte == DOT_SIGN {
        Ok(
            (
                LexerModel { state: State::Fractional, integer: lx.integer.push(0u8), ..lx },
                Action::Continue,
            ),
        )
    } else if is_digit_byte(byte) {
        Err(InternalError::LeadingZeroWithoutBase)
    } else if is_letter_byte(byte) {
        Err(InternalError::InvalidNumberDigit)
    } else {
        Ok(
            (
                LexerModel {
                    state: State::Start,
                    tokens: lx.tokens.push(
                        TokenView::Integer(IntegerView::Decimal(seq![0u8])),
                    ),
                    ..lx
                },
                Action::Again,
            ),
        )
    }
}

/// Dot state: a digit makes the dot the start of a leading-dot float;
/// anything else makes it the bare dot operator.
pub open spec fn spec_step_dot(lx: LexerModel, byte: u8) -> Result<
    (LexerModel, Action),
    InternalError,
> {
    if is_digit_byte(byte) {
        Ok(
            (
                LexerModel {
                    state: State::Fractional,
                    fractional: lx.fractional.push((byte - DIGIT_ZERO) as u8),
                    ..lx
                },
                Action::Continue,
            ),
        )
    } else {
        Ok(
            (
                LexerModel {
                    state: State::Start,
                    tokens: lx.tokens.push(TokenView::Dot),
                    ..lx
                },
                Action::Again,
            ),
        )
    }
}

/// Integer state: decimal digits accumulate; `.` and `e` switch to the float
/// states; anything else ends the decimal integer and is reconsumed.
pub open spec fn spec_step_integer(lx: LexerModel, byte: u8) -> Result<
    (LexerModel, Action),
    InternalError,
> {
    if is_digit_byte(byte) {
        Ok(
            (
                LexerModel { integer: lx.integer.push((byte - DIGIT_ZERO) as u8), ..lx },
                Action::Continue,
            ),
        )
    } else if byte == DOT_SIGN {
        Ok((LexerModel { state: State::Fractional, ..lx }, Action::Continue))
    } else if byte == LOWER_E {
        Ok((LexerModel { state: State::Exponent, ..lx }, Action::Continue))
    } else {
        Ok(
            (
                LexerModel {
                    state: State::Start,
                    integer: Seq::empty(),
                    tokens: lx.tokens.push(TokenView::Integer(IntegerView::Decimal(lx.integer))),
                    ..lx
                },
                Action::Again,
            ),
        )
    }
}

/// Hexadecimal state: digits `0-9a-fA-F` accumulate as values 0 to 15; other
/// letters are invalid digits; anything else ends the literal, which must by
/// then have at least one digit.
pub open spec fn spec_step_hexadecimal(lx: LexerModel, byte: u8) -> Result<
    (LexerModel, Action),
    InternalError,
> {
    if is_digit_byte(byte) {
        Ok(
            (
                LexerModel { integer: lx.integer.push((byte - DIGIT_ZERO) as u8), ..lx },
                Action::Continue,
            ),
        )
    } else if UPPER_A <= byte && byte <= UPPER_F {
        Ok(
            (
                LexerModel { integer: lx.integer.push((10 + (byte - UPPER_A)) as u8), ..lx },
                Action::Continue,
            ),
        )
    } else if LOWER_A <= byte && byte <= LOWER_F {
        Ok(
            (
                LexerModel { integer: lx.integer.push((10 + (byte - LOWER_A)) as u8), ..lx },
                Action::Continue,
            ),
        )
    } else if is_letter_byte(byte) {
        Err(InternalError::InvalidHexadecimalDigit)
    } else if lx.integer.len() == 0 {
        Err(InternalError::MissingDigitsAfterBasePrefix)
    } else {
        Ok(
            (
                LexerModel {
                    state: State::Start,
                    integer: Seq::empty(),
                    tokens: lx.tokens.push(
                        TokenView::Integer(IntegerView::Hexadecimal(lx.integer)),
                    ),
                    ..lx
                },
                Action::Again,
            ),
        )
    }
}

/// Octal state: digits `0-7` accumulate; `8`, `9` and letters are invalid;
/// anything else ends the literal, which must have at least one digit.
pub open spec fn spec_step_octal(lx: LexerModel, byte: u8) -> Result<
    (LexerModel, Action),
    InternalError,
> {
    if DIGIT_ZERO <= byte && byte <= DIGIT_SEVEN {
        Ok(
            (
                LexerModel { integer: lx.integer.push((byte - DIGIT_ZERO) as u8), ..lx },
                Action::Continue,
            ),
        )
    } else if is_digit_byte(byte) || is_letter_byte(byte) {
        Err(InternalError::InvalidOctalDigit)
    } else if lx.integer.len() == 0 {
        Err(InternalError::MissingDigitsAfterBasePrefix)
    } else {
        Ok(
            (
                LexerModel {
                    state: State::Start,
                    integer: Seq::empty(),
                    tokens: lx.tokens.push(TokenView::Integer(IntegerView::Octal(lx.integer))),
                    ..lx
                },
                Action::Again,
            ),
        )
    }
}

/// Binary state: digits `0` and `1` accumulate; other digits and letters are
/// invalid; anything else ends the literal, which must have at least one
/// digit.
pub open spec fn spec_step_binary(lx: LexerModel, byte: u8) -> Result<
    (LexerModel, Action),
    InternalError,
> {
    if byte == DIGIT_ZERO || byte == DIGIT_ONE {
        Ok(
            (
                LexerModel { integer: lx.integer.push((byte - DIGIT_ZERO) as u8), ..lx },
                Action::Continue,
            ),
        )
    } else if is_digit_byte(byte) || is_letter_byte(byte) {
        Err(InternalError::InvalidBinaryDigit)
    } else if lx.integer.len() == 0 {
        Err(InternalError::MissingDigitsAfterBasePrefix)
    } else {
        Ok(
            (
                LexerModel {
                    state: State::Start,
                    integer: Seq::empty(),
                    tokens: lx.tokens.push(TokenView::Integer(IntegerView::Binary(lx.integer))),
                    ..lx
                },
                Action::Again,
            ),
        )
    }
}

/// Fractional state: decimal digits accumulate; `e` switches to the exponent
/// state; anything else ends the plain decimal float and is reconsumed.
pub open spec fn spec_step_fractional(lx: LexerModel, byte: u8) -> Result<
    (LexerModel, Action),
    InternalError,
> {
    if is_digit_byte(byte) {
        Ok(
            (
                LexerModel { fractional: lx.fractional.push((byte - DIGIT_ZERO) as u8), ..lx },
                Action::Continue,
            ),
        )
    } else if byte == LOWER_E {
        Ok((LexerModel { state: State::Exponent, ..lx }, Action::Continue))
    } else {
        Ok(
            (
                LexerModel {
                    state: State::Start,
                    integer: Seq::empty(),
                    fractional: Seq::empty(),
                    tokens: lx.tokens.push(
                        TokenView::Float(
                            FloatView::Decimal {
                                integer: lx.integer,
                                fractional: lx.fractional,
                            },
                        ),
                    ),
                    ..lx
                },
                Action::Again,
            ),
        )
    }
}

/// Exponent state: decimal digits accumulate; any other byte ends the
/// scientific float and is reconsumed.  Mid-stream the exponent may be
/// empty here; only end-of-input finalization rejects an empty exponent.
pub open spec fn spec_step_exponent(lx: LexerModel, byte: u8) -> Result<
    (LexerModel, Action),
    InternalError,
> {
    if is_digit_byte(byte) {
        Ok(
            (
                LexerModel { exponent: lx.exponent.push((byte - DIGIT_ZERO) as u8), ..lx },
                Action::Continue,
            ),
        )
    } else {
        Ok(
            (
                LexerModel {
                    state: State::Start,
                    integer: Seq::empty(),
                    fractional: Seq::empty(),
                    exponent: Seq::empty(),
                    tokens: lx.tokens.push(
                        TokenView::Float(
                            FloatView::Scientific {
                                integer: lx.integer,
                                fractional: lx.fractional,
                                exponent: lx.exponent,
                            },
                        ),
                    ),
                    ..lx
                },
                Action::Again,
            ),
        )
    }
}

/// Equals state: a second `=` makes the comparison operator; anything else
/// makes the assignment operator and is reconsumed.
pub open spec fn spec_step_equals(lx: LexerModel, byte: u8) -> Result<
    (LexerModel, Action),
    InternalError,
> {
    if byte == EQUALS_SIGN {
        Ok(
            (
                LexerModel {
                    state: State::Start,
                    tokens: lx.tokens.push(TokenView::Equals),
                    ..lx
                },
                Action::Continue,
            ),
        )
    } else {
        Ok(
            (
                LexerModel {
                    state: State::Start,
                    tokens: lx.tokens.push(TokenView::Assign),
                    ..lx
                },
                Action::Again,
            ),
        )
    }
}

/// Minus state: a `>` makes the arrow operator; anything else makes the
/// minus operator and is reconsumed.
pub open spec fn spec_step_minus(lx: LexerModel, byte: u8) -> Result<
    (LexerModel, Action),
    InternalError,
> {
    if byte == GREATER_THAN {
        Ok(
            (
                LexerModel {
                    state: State::Start,
                    tokens: lx.tokens.push(TokenView::RightArrow),
                    ..lx
                },
                Action::Continue,
            ),
        )
    } else {
        Ok(
            (
                LexerModel {
                    state: State::Start,
                    tokens: lx.tokens.push(TokenView::Minus),
                    ..lx
                },
                Action::Again,
            ),
        )
    }
}

/// One transition of the state machine on one byte.
pub open spec fn spec_step(lx: LexerModel, byte: u8) -> Result<
    (LexerModel, Action),
    InternalError,
> {
    match lx.state {
        State::Start => spec_step_start(lx, byte),
        State::Identifier => spec_step_identifier(lx, byte),
        State::Zero => spec_step_zero(lx, byte),
        State::Dot => spec_step_dot(lx, byte),
        State::Integer => spec_step_integer(lx, byte),
        State::Hexadecimal => spec_step_hexadecimal(lx, byte),
        State::Octal => spec_step_octal(lx, byte),
        State::Binary => spec_step_binary(lx, byte),
        State::Fractional => spec_step_fractional(lx, byte),
        State::Exponent => spec_step_exponent(lx, byte),
        State::Equals => spec_step_equals(lx, byte),
        State::Minus => spec_step_minus(lx, byte),
    }
}

/// Transitions until the byte is actually consumed: a reconsume (`Again`)
/// always lands in the start state, which consumes every byte it accepts,
/// so at most one extra transition runs.
pub open spec fn spec_feed_byte(lx: LexerModel, byte: u8) -> Result<LexerModel, InternalError>
    decreases (if lx.state is Start { 0int } else { 1int }),
{
    match spec_step(lx, byte) {
        Err(error) => Err(error),
        Ok((stepped, Action::Continue)) => Ok(stepped),
        Ok((stepped, Action::Again)) => spec_feed_byte(stepped, byte),
    }
}

/// Attaches the offset of the offending byte to a state-machine failure.
pub open spec fn lex_error_at(error: InternalError, offset: usize) -> Error {
    match error {
        InternalError::UnexpectedByte => Error::UnexpectedByte(offset),
        InternalError::InvalidNumberDigit => Error::InvalidNumberDigit(offset),
        InternalError::LeadingZeroWithoutBase => Error::LeadingZeroWithoutBase(offset),
        InternalError::InvalidHexadecimalDigit => Error::InvalidHexadecimalDigit(offset),
        InternalError::InvalidOctalDigit => Error::InvalidOctalDigit(offset),
        InternalError::InvalidBinaryDigit => Error::InvalidBinaryDigit(offset),
        InternalError::MissingDigitsAfterBasePrefix => Error::MissingDigitsAfterBasePrefix(offset),
    }
}

/// Feeds the input bytes from position `i` on, failing at the first invalid
/// byte with that byte's offset.
pub open spec fn spec_feed(lx: LexerModel, input: Seq<u8>, i: int) -> Result<LexerModel, Error>
    decreases input.len() - i,
{
    if i < 0 || i >= input.len() {
        Ok(lx)
    } else {
        match spec_feed_byte(lx, input[i]) {
            Err(error) => Err(lex_error_at(error, i as usize)),
            Ok(fed) => spec_feed(fed, input, i + 1),
        }
    }
}

/// End-of-input finalization: emits the pending token of the current state,
/// or fails where the state still needs digits.  `len` is the buffer length,
/// the offset reported for failures found only here.
pub open spec fn spec_finalize(lx: LexerModel, len: usize) -> Result<Seq<TokenView>, Error> {
    match lx.state {
        State::Start => Ok(lx.tokens),
        State::Identifier => Ok(lx.tokens.push(spec_classify(lx.identifier))),
        State::Zero => Ok(lx.tokens.push(TokenView::Integer(IntegerView::Decimal(seq![0u8])))),
        State::Dot => Ok(lx.tokens.push(TokenView::Dot)),
        State::Integer => Ok(lx.tokens.push(TokenView::Integer(IntegerView::Decimal(lx.integer)))),
        State::Hexadecimal => {
            if lx.integer.len() == 0 {
                Err(Error::MissingDigitsAfterBasePrefix(len))
            } else {
                Ok(lx.tokens.push(TokenView::Integer(IntegerView::Hexadecimal(lx.integer))))
            }
        },
        State::Octal => {
            if lx.integer.len() == 0 {
                Err(Error::MissingDigitsAfterBasePrefix(len))
            } else {
                Ok(lx.tokens.push(TokenView::Integer(IntegerView::Octal(lx.integer))))
            }
        },
        State::Binary => {
            if lx.integer.len() == 0 {
                Err(Error::MissingDigitsAfterBasePrefix(len))
            } else {
                Ok(lx.tokens.push(TokenView::Integer(IntegerView::Binary(lx.integer))))
            }
        },
        State::Fractional => Ok(
            lx.tokens.push(
                TokenView::Float(
                    FloatView::Decimal { integer: lx.integer, fractional: lx.fractional },
                ),
            ),
        ),
        State::Exponent => {
            if lx.exponent.len() == 0 {
                Err(Error::MissingDigitsAfterExponentMark(len))
            } else {
                Ok(
                    lx.tokens.push(
                        TokenView::Float(
                            FloatView::Scientific {
                                integer: lx.integer,
                                fractional: lx.fractional,
                                exponent: lx.exponent,
                            },
                        ),
                    ),
                )
            }
        },
        State::Equals => Ok(lx.tokens.push(TokenView::Assign)),
        State::Minus => Ok(lx.tokens.push(TokenView::Minus)),
    }
}

/// A lexer that has read nothing yet.
pub open spec fn init_lexer_model() -> LexerModel {
    LexerModel {
        state: State::Start,
        integer: Seq::empty(),
        fractional: Seq::empty(),
        exponent: Seq::empty(),
        identifier: Seq::empty(),
        tokens: Seq::empty(),
    }
}

/// The model of the whole lexer run: feed every byte, then finalize at end
/// of input.  [`tokenize`] returns exactly this.
pub open spec fn spec_tokenize(input: Seq<u8>) -> Result<Seq<TokenView>, Error> {
    match spec_feed(init_lexer_model(), input, 0) {
        Err(error) => Err(error),
        Ok(lx) => spec_finalize(lx, input.len() as usize),
    }
}

/// Copies a digit or spelling buffer byte for byte.
pub fn clone_bytes(bytes: &Vec<u8>) -> (copy: Vec<u8>)
    ensures
        copy@ == bytes@,
{
    let mut copy: Vec<u8> = Vec::new();
    for i in 0..bytes.len()
        invariant
            copy@ == bytes@.subrange(0, i as int),
    {
        copy.push(bytes[i]);
        proof {
            assert(copy@ =~= bytes@.subrange(0, i as int + 1));
        }
    }
    proof {
        assert(bytes@.subrange(0, bytes@.len() as int) =~= bytes@);
    }
    copy
}

impl Clone for IntegerRepresentation {
    /// The copy represents the same literal.
    fn clone(&self) -> (copy: Self)
        ensures
            copy@ == self@,
    {
        match self {
            IntegerRepresentation::Decimal(digits) => IntegerRepresentation::Decimal(
                clone_bytes(digits),
            ),
            IntegerRepresentation::Hexadecimal(digits) => IntegerRepresentation::Hexadecimal(
                clone_bytes(digits),
            ),
            IntegerRepresentation::Octal(digits) => IntegerRepresentation::Octal(
                clone_bytes(digits),
            ),
            IntegerRepresentation::Binary(digits) => IntegerRepresentation::Binary(
                clone_bytes(digits),
            ),
        }
    }
}

impl Clone for FloatRepresentation {
    /// The copy represents the same literal.
    fn clone(&self) -> (copy: Self)
        ensures
            copy@ == self@,
    {
        match self {
            FloatRepresentation::Decimal { integer, fractional } => FloatRepresentation::Decimal {
                integer: clone_bytes(integer),
                fractional: clone_bytes(fractional),
            },
            FloatRepresentation::Scientific { integer, fractional, exponent } => (
            FloatRepresentation::Scientific {
                integer: clone_bytes(integer),
                fractional: clone_bytes(fractional),
                exponent: clone_bytes(exponent),
            }),
        }
    }
}

/// Every digit value in `digits` is strictly below `radix`.
pub open spec fn all_below(digits: Seq<u8>, radix: u8) -> bool {
    forall|i: int| 0 <= i < digits.len() ==> digits[i] < radix
}

/// The stored digit values of an integer literal are strictly below its
/// radix.
pub open spec fn wf_integer_view(integer: IntegerView) -> bool {
    match integer {
        IntegerView::Decimal(digits) => all_below(digits, 10),
        IntegerView::Hexadecimal(digits) => all_below(digits, 16),
        IntegerView::Octal(digits) => all_below(digits, 8),
        IntegerView::Binary(digits) => all_below(digits, 2),
    }
}

/// Every field of a float literal holds base-10 digit values.
pub open spec fn wf_float_view(float: FloatView) -> bool {
    match float {
        FloatView::Decimal { integer, fractional } => all_below(integer, 10) && all_below(
            fractional,
            10,
        ),
        FloatView::Scientific { integer, fractional, exponent } => all_below(integer, 10)
            && all_below(fractional, 10) && all_below(exponent, 10),
    }
}

/// The digit-value invariant of one token: literal payloads stay below
/// their radix; every other token holds no digits.
pub open spec fn wf_token_view(token: TokenView) -> bool {
    match token {
        TokenView::Integer(integer) => wf_integer_view(integer),
        TokenView::Float(float) => wf_float_view(float),
        _ => true,
    }
}

pub open spec fn wf_tokens(tokens: Seq<TokenView>) -> bool {
    forall|i: int| 0 <= i < tokens.len() ==> wf_token_view(#[trigger] tokens[i])
}

/// What the machine maintains of its scratch buffers between transitions:
/// each state bounds the pending digit values by the radix of the literal
/// it is reading, and buffers that no pending literal uses are empty.
pub open spec fn wf_buffers(lx: LexerModel) -> bool {
    match lx.state {
        State::Start => lx.integer.len() == 0 && lx.fractional.len() == 0 && lx.exponent.len()
            == 0,
        State::Identifier => lx.integer.len() == 0 && lx.fractional.len() == 0 && lx.exponent.len()
            == 0,
        State::Zero => lx.integer.len() == 0 && lx.fractional.len() == 0 && lx.exponent.len() == 0,
        State::Dot => lx.integer.len() == 0 && lx.fractional.len() == 0 && lx.exponent.len() == 0,
        State::Integer => all_below(lx.integer, 10) && lx.fractional.len() == 0 && lx.exponent.len()
            == 0,
        State::Hexadecimal => all_below(lx.integer, 16) && lx.fractional.len() == 0
            && lx.exponent.len() == 0,
        State::Octal => all_below(lx.integer, 8) && lx.fractional.len() == 0 && lx.exponent.len()
            == 0,
        State::Binary => all_below(lx.integer, 2) && lx.fractional.len() == 0 && lx.exponent.len()
            == 0,
        State::Fractional => all_below(lx.integer, 10) && all_below(lx.fractional, 10)
            && lx.exponent.len() == 0,
        State::Exponent => all_below(lx.integer, 10) && all_below(lx.fractional, 10) && all_below(
            lx.exponent,
            10,
        ),
        State::Equals => lx.integer.len() == 0 && lx.fractional.len() == 0 && lx.exponent.len()
            == 0,
        State::Minus => lx.integer.len() == 0 && lx.fractional.len() == 0 && lx.exponent.len()
            == 0,
    }
}

proof fn lemma_step_preserves_wf(lx: LexerModel, byte: u8)
    requires
        wf_buffers(lx),
        wf_tokens(lx.tokens),
    ensures
        (match spec_step(lx, byte) {
            Ok((stepped, action)) => wf_buffers(stepped) && wf_tokens(stepped.tokens),
            Err(error) => true,
        }),
{
}

proof fn lemma_feed_byte_preserves_wf(lx: LexerModel, byte: u8)
    requires
        wf_buffers(lx),
        wf_tokens(lx.tokens),
    ensures
        (match spec_feed_byte(lx, byte) {
            Ok(fed) => wf_buffers(fed) && wf_tokens(fed.tokens),
            Err(error) => true,
        }),
    decreases (if lx.state is Start { 0int } else { 1int }),
{
    lemma_step_preserves_wf(lx, byte);
    match spec_step(lx, byte) {
        Ok((stepped, Action::Again)) => {
            lemma_feed_byte_preserves_wf(stepped, byte);
        },
        _ => {
        },
    }
}

proof fn lemma_feed_preserves_wf(lx: LexerModel, input: Seq<u8>, i: int)
    requires
        wf_buffers(lx),
        wf_tokens(lx.tokens),
    ensures
        (match spec_feed(lx, input, i) {
            Ok(fed) => wf_buffers(fed) && wf_tokens(fed.tokens),
            Err(error) => true,
        }),
    decreases input.len() - i,
{
    if 0 <= i < input.len() {
        lemma_feed_byte_preserves_wf(lx, input[i]);
        match spec_feed_byte(lx, input[i]) {
            Ok(fed) => {
                lemma_feed_preserves_wf(fed, input, i + 1);
            },
            Err(error) => {
            },
        }
    }
}

/// The data-model invariant of the whole lexer: in every token sequence
/// that tokenization can produce, each stored digit value is strictly below
/// the radix of its literal, and every float field holds base-10 values.
pub proof fn lemma_tokenize_respects_radix(input: Seq<u8>)
    ensures
        (match spec_tokenize(input) {
            Ok(tokens) => wf_tokens(tokens),
            Err(error) => true,
        }),
{
    lemma_feed_preserves_wf(init_lexer_model(), input, 0);
}

/// The digit values of a run of decimal digit characters, in order.
pub open spec fn digit_values(digits: Seq<u8>) -> Seq<u8> {
    digits.map_values(|byte: u8| (byte - DIGIT_ZERO) as u8)
}

/// Feeding decimal digit bytes from position `i` on, in the plain-integer
/// state, appends their values to the integer buffer and changes nothing
/// else.
proof fn lemma_feed_decimal_digits(lx: LexerModel, input: Seq<u8>, i: int)
    requires
        lx.state is Integer,
        0 <= i <= input.len(),
        forall|j: int| i <= j < input.len() ==> is_digit_byte(#[trigger] input[j]),
    ensures
        spec_feed(lx, input, i) == Ok::<LexerModel, Error>(
            LexerModel {
                integer: lx.integer + digit_values(input.subrange(i, input.len() as int)),
                ..lx
            },
        ),
    decreases input.len() - i,
{
    if i == input.len() {
        assert(lx.integer + digit_values(input.subrange(i, input.len() as int)) =~= lx.integer);
    } else {
        let byte = input[i];
        let fed = LexerModel { integer: lx.integer.push((byte - DIGIT_ZERO) as u8), ..lx };
        lemma_feed_decimal_digits(fed, input, i + 1);
        assert(fed.integer + digit_values(input.subrange(i + 1, input.len() as int)) =~= lx.integer
            + digit_values(input.subrange(i, input.len() as int)));
    }
}

/// For every decimal literal that is not a zero followed by more digits,
/// the emitted token is exactly the source digits converted to values, in
/// order: the single token `Integer(Decimal(digit_values(input)))`.
pub proof fn lemma_decimal_literal(input: Seq<u8>)
    requires
        input.len() > 0,
        forall|j: int| 0 <= j < input.len() ==> is_digit_byte(#[trigger] input[j]),
        input[0] == DIGIT_ZERO ==> input.len() == 1,
    ensures
        spec_tokenize(input) == Ok::<Seq<TokenView>, Error>(
            seq![TokenView::Integer(IntegerView::Decimal(digit_values(input)))],
        ),
{
    let start = init_lexer_model();
    if input[0] == DIGIT_ZERO {
        let zero = LexerModel { state: State::Zero, ..start };
        assert(spec_feed_byte(start, input[0]) == Ok::<LexerModel, InternalError>(zero));
        assert(spec_feed(zero, input, 1) == Ok::<LexerModel, Error>(zero));
        assert(spec_feed(start, input, 0) == Ok::<LexerModel, Error>(zero));
        assert(digit_values(input) =~= seq![0u8]);
        assert(zero.tokens.push(TokenView::Integer(IntegerView::Decimal(seq![0u8]))) =~= seq![
            TokenView::Integer(IntegerView::Decimal(digit_values(input))),
        ]);
    } else {
        let first = LexerModel {
            state: State::Integer,
            integer: start.integer.push((input[0] - DIGIT_ZERO) as u8),
            ..start
        };
        assert(spec_feed_byte(start, input[0]) == Ok::<LexerModel, InternalError>(first));
        lemma_feed_decimal_digits(first, input, 1);
        let full = LexerModel {
            integer: first.integer + digit_values(input.subrange(1, input.len() as int)),
            ..first
        };
        assert(full.integer =~= digit_values(input));
        assert(full.tokens.push(TokenView::Integer(IntegerView::Decimal(full.integer))) =~= seq![
            TokenView::Integer(IntegerView::Decimal(digit_values(input))),
        ]);
    }
}

struct Lexer {
    state: State,
    integer: Vec<u8>,
    fractional: Vec<u8>,
    exponent: Vec<u8>,
    identifier: Vec<u8>,
    tokens: Vec<Token>,
}

impl View for Lexer {
    type V = LexerModel;

    closed spec fn view(&self) -> LexerModel {
        LexerModel {
            state: self.state,
            integer: self.integer@,
            fractional: self.fractional@,
            exponent: self.exponent@,
            identifier: self.identifier@,
            tokens: tokens_view(self.tokens@),
        }
    }
}

impl Lexer {
    fn new() -> (lexer: Self)
        ensures
            lexer@ == init_lexer_model(),
    {
        let lexer = Lexer {
            state: State::Start,
            integer: Vec::new(),
            fractional: Vec::new(),
            exponent: Vec::new(),
            identifier: Vec::new(),
            tokens: Vec::new(),
        };
        proof {
            assert(tokens_view(lexer.tokens@) =~= init_lexer_model().tokens);
        }
        lexer
    }

    fn run_fsm_start(&mut self, byte: u8) -> (r: Result<Action, InternalError>)
        ensures
            (match (r, spec_step_start(old(self)@, byte)) {
                (Ok(action), Ok((model, spec_action))) => final(self)@ == model && action == spec_action,
                (Err(error), Err(spec_error)) => error == spec_error && final(self)@ == old(self)@,
                _ => false,
            }),
    {
        broadcast use lemma_tokens_view_push;

        if byte == SPACE || byte == TAB || byte == CARRIAGE_RETURN || byte == LINE_FEED {
            Ok(Action::Continue)
        } else if (UPPER_A <= byte && byte <= UPPER_Z) || (LOWER_A <= byte && byte <= LOWER_Z)
            || byte == UNDERSCORE {
            self.identifier.push(byte);
            self.state = State::Identifier;
            Ok(Action::Continue)
        } else if byte == DIGIT_ZERO {
            self.state = State::Zero;
            Ok(Action::Continue)
        } else if DIGIT_ZERO <= byte && byte <= DIGIT_NINE {
            self.integer.push(byte - DIGIT_ZERO);
            self.state = State::Integer;
            Ok(Action::Continue)
        } else if byte == PLUS_SIGN {
            self.tokens.push(Token::Plus);
            Ok(Action::Continue)
        } else if byte == MINUS_SIGN {
            self.state = State::Minus;
            Ok(Action::Continue)
        } else if byte == ASTERISK_SIGN {
            self.tokens.push(Token::Asterisk);
            Ok(Action::Continue)
        } else if byte == SLASH_SIGN {
            self.tokens.push(Token::ForwardSlash);
            Ok(Action::Continue)
        } else if byte == DOT_SIGN {
            self.state = State::Dot;
            Ok(Action::Continue)
        } else if byte == COMMA_SIGN {
            self.tokens.push(Token::Comma);
            Ok(Action::Continue)
        } else if byte == COLON_SIGN {
            self.tokens.push(Token::Colon);
            Ok(Action::Continue)
        } else if byte == SEMICOLON_SIGN {
            self.tokens.push(Token::Semicolon);
            Ok(Action::Continue)
        } else if byte == EQUALS_SIGN {
            self.state = State::Equals;
            Ok(Action::Continue)
        } else if byte == LEFT_PAREN {
            self.tokens.push(Token::LeftParenthesis);
            Ok(Action::Continue)
        } else if byte == RIGHT_PAREN {
            self.tokens.push(Token::RightParenthesis);
            Ok(Action::Continue)
        } else if byte == LEFT_BRACKET_SIGN {
            self.tokens.push(Token::LeftBracket);
            Ok(Action::Continue)
        } else if byte == RIGHT_BRACKET_SIGN {
            self.tokens.push(Token::RightBracket);
            Ok(Action::Continue)
        } else if byte == LEFT_BRACE_SIGN {
            self.tokens.push(Token::LeftBrace);
            Ok(Action::Continue)
        } else if byte == RIGHT_BRACE_SIGN {
            self.tokens.push(Token::RightBrace);
            Ok(Action::Continue)
        } else {
            Err(InternalError::UnexpectedByte)
        }
    }

    /// Closes the accumulated identifier spelling: a keyword token where it
    /// matches the keyword table, an identifier token otherwise.
    fn classify_identifier(&mut self)
        ensures
            final(self)@ == (LexerModel {
                identifier: Seq::<u8>::empty(),
                tokens: old(self)@.tokens.push(spec_classify(old(self)@.identifier)),
                ..old(self)@
            }),
    {
        broadcast use lemma_tokens_view_push;

        let mut name: Vec<u8> = Vec::new();
        core::mem::swap(&mut name, &mut self.identifier);
        let token = if name.len() == 3 && name[0] == LOWER_A && name[1] == LOWER_N && name[2]
            == LOWER_D {
            Token::And
        } else if name.len() == 4 && name[0] == LOWER_E && name[1] == LOWER_L && name[2] == LOWER_S
            && name[3] == LOWER_E {
            Token::Else
        } else if name.len() == 5 && name[0] == LOWER_F && name[1] == LOWER_A && name[2] == LOWER_L
            && name[3] == LOWER_S && name[4] == LOWER_E {
            Token::False
        } else if name.len() == 8 && name[0] == LOWER_F && name[1] == LOWER_U && name[2] == LOWER_N
            && name[3] == LOWER_C && name[4] == LOWER_T && name[5] == LOWER_I && name[6] == LOWER_O
            && name[7] == LOWER_N {
            Token::Function
        } else if name.len() == 2 && name[0] == LOWER_I && name[1] == LOWER_F {
            Token::If
        } else if name.len() == 6 && name[0] == LOWER_L && name[1] == LOWER_A && name[2] == LOWER_M
            && name[3] == LOWER_B && name[4] == LOWER_D && name[5] == LOWER_A {
            Token::Lambda
        } else if name.len() == 3 && name[0] == LOWER_L && name[1] == LOWER_E && name[2]
            == LOWER_T {
            Token::Let
        } else if name.len() == 3 && name[0] == LOWER_N && name[1] == LOWER_O && name[2]
            == LOWER_T {
            Token::Not
        } else if name.len() == 2 && name[0] == LOWER_O && name[1] == LOWER_R {
            Token::Or
        } else if name.len() == 6 && name[0] == LOWER_R && name[1] == LOWER_E && name[2] == LOWER_T
            && name[3] == LOWER_U && name[4] == LOWER_R && name[5] == LOWER_N {
            Token::Return
        } else if name.len() == 4 && name[0] == LOWER_T && name[1] == LOWER_R && name[2] == LOWER_U
            && name[3] == LOWER_E {
            Token::True
        } else if name.len() == 3 && name[0] == LOWER_X && name[1] == LOWER_O && name[2]
            == LOWER_R {
            Token::Xor
        } else {
            Token::Identifier(Box::new(name))
        };
        self.tokens.push(token);
    }

    fn run_fsm_identifier(&mut self, byte: u8) -> (r: Result<Action, InternalError>)
        ensures
            (match (r, spec_step_identifier(old(self)@, byte)) {
                (Ok(action), Ok((model, spec_action))) => final(self)@ == model && action == spec_action,
                (Err(error), Err(spec_error)) => error == spec_error && final(self)@ == old(self)@,
                _ => false,
            }),
    {
        if (DIGIT_ZERO <= byte && byte <= DIGIT_NINE) || (UPPER_A <= byte && byte <= UPPER_Z) || (
        LOWER_A <= byte && byte <= LOWER_Z) || byte == UNDERSCORE {
            self.identifier.push(byte);
            Ok(Action::Continue)
        } else {
            self.classify_identifier();
            self.state = State::Start;
            Ok(Action::Again)
        }
    }

    fn run_fsm_zero(&mut self, byte: u8) -> (r: Result<Action, InternalError>)
        ensures
            (match (r, spec_step_zero(old(self)@, byte)) {
                (Ok(action), Ok((model, spec_action))) => final(self)@ == model && action == spec_action,
                (Err(error), Err(spec_error)) => error == spec_error && final(self)@ == old(self)@,
                _ => false,
            }),
    {
        broadcast use lemma_tokens_view_push;

        if byte == LOWER_X {
            self.state = State::Hexadecimal;
            Ok(Action::Continue)
        } else if byte == LOWER_O {
            self.state = State::Octal;
            Ok(Action::Continue)
        } else if byte == LOWER_B {
            self.state = State::Binary;
            Ok(Action::Continue)
        } else if byte == DOT_SIGN {
            self.integer.push(0);
            self.state = State::Fractional;
            Ok(Action::Continue)
        } else if DIGIT_ZERO <= byte && byte <= DIGIT_NINE {
            Err(InternalError::LeadingZeroWithoutBase)
        } else if (UPPER_A <= byte && byte <= UPPER_Z) || (LOWER_A <= byte && byte <= LOWER_Z) {
            Err(InternalError::InvalidNumberDigit)
        } else {
            let mut digits: Vec<u8> = Vec::new();
            digits.push(0);
            proof {
                assert(digits@ =~= seq![0u8]);
            }
            self.tokens.push(Token::Integer(Box::new(IntegerRepresentation::Decimal(digits))));
            self.state = State::Start;
            Ok(Action::Again)
        }
    }

    fn run_fsm_dot(&mut self, byte: u8) -> (r: Result<Action, InternalError>)
        ensures
            (match (r, spec_step_dot(old(self)@, byte)) {
                (Ok(action), Ok((model, spec_action))) => final(self)@ == model && action == spec_action,
                (Err(error), Err(spec_error)) => error == spec_error && final(self)@ == old(self)@,
                _ => false,
            }),
    {
        broadcast use lemma_tokens_view_push;

        if DIGIT_ZERO <= byte && byte <= DIGIT_NINE {
            self.fractional.push(byte - DIGIT_ZERO);
            self.state = State::Fractional;
            Ok(Action::Continue)
        } else {
            self.tokens.push(Token::Dot);
            self.state = State::Start;
            Ok(Action::Again)
        }
    }

    /// Moves the accumulated integer digits out, leaving the buffer empty.
    fn take_integer(&mut self) -> (digits: Vec<u8>)
        ensures
            digits@ == old(self)@.integer,
            final(self)@ == (LexerModel { integer: Seq::<u8>::empty(), ..old(self)@ }),
    {
        let mut digits: Vec<u8> = Vec::new();
        core::mem::swap(&mut digits, &mut self.integer);
        digits
    }

    fn run_fsm_integer(&mut self, byte: u8) -> (r: Result<Action, InternalError>)
        ensures
            (match (r, spec_step_integer(old(self)@, byte)) {
                (Ok(action), Ok((model, spec_action))) => final(self)@ == model && action
                    == spec_action,
                (Err(error), Err(spec_error)) => error == spec_error && final(self)@ == old(self)@,
                _ => false,
            }),
    {
        broadcast use lemma_tokens_view_push;

        if DIGIT_ZERO <= byte && byte <= DIGIT_NINE {
            self.integer.push(byte - DIGIT_ZERO);
            Ok(Action::Continue)
        } else if byte == DOT_SIGN {
            self.state = State::Fractional;
            Ok(Action::Continue)
        } else if byte == LOWER_E {
            self.state = State::Exponent;
            Ok(Action::Continue)
        } else {
            let digits = self.take_integer();
            self.tokens.push(Token::Integer(Box::new(IntegerRepresentation::Decimal(digits))));
            self.state = State::Start;
            Ok(Action::Again)
        }
    }

    fn run_fsm_hexadecimal(&mut self, byte: u8) -> (r: Result<Action, InternalError>)
        ensures
            (match (r, spec_step_hexadecimal(old(self)@, byte)) {
                (Ok(action), Ok((model, spec_action))) => final(self)@ == model && action
                    == spec_action,
                (Err(error), Err(spec_error)) => error == spec_error && final(self)@ == old(self)@,
                _ => false,
            }),
    {
        broadcast use lemma_tokens_view_push;

        if DIGIT_ZERO <= byte && byte <= DIGIT_NINE {
            self.integer.push(byte - DIGIT_ZERO);
            Ok(Action::Continue)
        } else if UPPER_A <= byte && byte <= UPPER_F {
            self.integer.push(10 + (byte - UPPER_A));
            Ok(Action::Continue)
        } else if LOWER_A <= byte && byte <= LOWER_F {
            self.integer.push(10 + (byte - LOWER_A));
            Ok(Action::Continue)
        } else if (UPPER_A <= byte && byte <= UPPER_Z) || (LOWER_A <= byte && byte <= LOWER_Z) {
            Err(InternalError::InvalidHexadecimalDigit)
        } else if self.integer.len() == 0 {
            Err(InternalError::MissingDigitsAfterBasePrefix)
        } else {
            let digits = self.take_integer();
            self.tokens.push(Token::Integer(Box::new(IntegerRepresentation::Hexadecimal(digits))));
            self.state = State::Start;
            Ok(Action::Again)
        }
    }

    fn run_fsm_octal(&mut self, byte: u8) -> (r: Result<Action, InternalError>)
        ensures
            (match (r, spec_step_octal(old(self)@, byte)) {
                (Ok(action), Ok((model, spec_action))) => final(self)@ == model && action
                    == spec_action,
                (Err(error), Err(spec_error)) => error == spec_error && final(self)@ == old(self)@,
                _ => false,
            }),
    {
        broadcast use lemma_tokens_view_push;

        if DIGIT_ZERO <= byte && byte <= DIGIT_SEVEN {
            self.integer.push(byte - DIGIT_ZERO);
            Ok(Action::Continue)
        } else if (DIGIT_ZERO <= byte && byte <= DIGIT_NINE) || (UPPER_A <= byte && byte
            <= UPPER_Z) || (LOWER_A <= byte && byte <= LOWER_Z) {
            Err(InternalError::InvalidOctalDigit)
        } else if self.integer.len() == 0 {
            Err(InternalError::MissingDigitsAfterBasePrefix)
        } else {
            let digits = self.take_integer();
            self.tokens.push(Token::Integer(Box::new(IntegerRepresentation::Octal(digits))));
            self.state = State::Start;
            Ok(Action::Again)
        }
    }

    fn run_fsm_binary(&mut self, byte: u8) -> (r: Result<Action, InternalError>)
        ensures
            (match (r, spec_step_binary(old(self)@, byte)) {
                (Ok(action), Ok((model, spec_action))) => final(self)@ == model && action
                    == spec_action,
                (Err(error), Err(spec_error)) => error == spec_error && final(self)@ == old(self)@,
                _ => false,
            }),
    {
        broadcast use lemma_tokens_view_push;

        if byte == DIGIT_ZERO || byte == DIGIT_ONE {
            self.integer.push(byte - DIGIT_ZERO);
            Ok(Action::Continue)
        } else if (DIGIT_ZERO <= byte && byte <= DIGIT_NINE) || (UPPER_A <= byte && byte
            <= UPPER_Z) || (LOWER_A <= byte && byte <= LOWER_Z) {
            Err(InternalError::InvalidBinaryDigit)
        } else if self.integer.len() == 0 {
            Err(InternalError::MissingDigitsAfterBasePrefix)
        } else {
            let digits = self.take_integer();
            self.tokens.push(Token::Integer(Box::new(IntegerRepresentation::Binary(digits))));
            self.state = State::Start;
            Ok(Action::Again)
        }
    }

    /// Moves the pending decimal float out of the scratch buffers.
    fn take_decimal_float(&mut self) -> (float: FloatRepresentation)
        ensures
            float@ == (FloatView::Decimal {
                integer: old(self)@.integer,
                fractional: old(self)@.fractional,
            }),
            final(self)@ == (LexerModel {
                integer: Seq::<u8>::empty(),
                fractional: Seq::<u8>::empty(),
                ..old(self)@
            }),
    {
        let mut integer: Vec<u8> = Vec::new();
        let mut fractional: Vec<u8> = Vec::new();
        core::mem::swap(&mut integer, &mut self.integer);
        core::mem::swap(&mut fractional, &mut self.fractional);
        FloatRepresentation::Decimal { integer, fractional }
    }

    /// Moves the pending scientific float out of the scratch buffers.
    fn take_scientific_float(&mut self) -> (float: FloatRepresentation)
        ensures
            float@ == (FloatView::Scientific {
                integer: old(self)@.integer,
                fractional: old(self)@.fractional,
                exponent: old(self)@.exponent,
            }),
            final(self)@ == (LexerModel {
                integer: Seq::<u8>::empty(),
                fractional: Seq::<u8>::empty(),
                exponent: Seq::<u8>::empty(),
                ..old(self)@
            }),
    {
        let mut integer: Vec<u8> = Vec::new();
        let mut fractional: Vec<u8> = Vec::new();
        let mut exponent: Vec<u8> = Vec::new();
        core::mem::swap(&mut integer, &mut self.integer);
        core::mem::swap(&mut fractional, &mut self.fractional);
        core::mem::swap(&mut exponent, &mut self.exponent);
        FloatRepresentation::Scientific { integer, fractional, exponent }
    }

    fn run_fsm_fractional(&mut self, byte: u8) -> (r: Result<Action, InternalError>)
        ensures
            (match (r, spec_step_fractional(old(self)@, byte)) {
                (Ok(action), Ok((model, spec_action))) => final(self)@ == model && action
                    == spec_action,
                (Err(error), Err(spec_error)) => error == spec_error && final(self)@ == old(self)@,
                _ => false,
            }),
    {
        broadcast use lemma_tokens_view_push;

        if DIGIT_ZERO <= byte && byte <= DIGIT_NINE {
            self.fractional.push(byte - DIGIT_ZERO);
            Ok(Action::Continue)
        } else if byte == LOWER_E {
            self.state = State::Exponent;
            Ok(Action::Continue)
        } else {
            let float = self.take_decimal_float();
            self.tokens.push(Token::Float(Box::new(float)));
            self.state = State::Start;
            Ok(Action::Again)
        }
    }

    fn run_fsm_exponent(&mut self, byte: u8) -> (r: Result<Action, InternalError>)
        ensures
            (match (r, spec_step_exponent(old(self)@, byte)) {
                (Ok(action), Ok((model, spec_action))) => final(self)@ == model && action
                    == spec_action,
                (Err(error), Err(spec_error)) => error == spec_error && final(self)@ == old(self)@,
                _ => false,
            }),
    {
        broadcast use lemma_tokens_view_push;

        if DIGIT_ZERO <= byte && byte <= DIGIT_NINE {
            self.exponent.push(byte - DIGIT_ZERO);
            Ok(Action::Continue)
        } else {
            let float = self.take_scientific_float();
            self.tokens.push(Token::Float(Box::new(float)));
            self.state = State::Start;
            Ok(Action::Again)
        }
    }

    fn run_fsm_equals(&mut self, byte: u8) -> (r: Result<Action, InternalError>)
        ensures
            (match (r, spec_step_equals(old(self)@, byte)) {
                (Ok(action), Ok((model, spec_action))) => final(self)@ == model && action
                    == spec_action,
                (Err(error), Err(spec_error)) => error == spec_error && final(self)@ == old(self)@,
                _ => false,
            }),
    {
        broadcast use lemma_tokens_view_push;

        if byte == EQUALS_SIGN {
            self.tokens.push(Token::Equals);
            self.state = State::Start;
            Ok(Action::Continue)
        } else {
            self.tokens.push(Token::Assign);
            self.state = State::Start;
            Ok(Action::Again)
        }
    }

    fn run_fsm_minus(&mut self, byte: u8) -> (r: Result<Action, InternalError>)
        ensures
            (match (r, spec_step_minus(old(self)@, byte)) {
                (Ok(action), Ok((model, spec_action))) => final(self)@ == model && action
                    == spec_action,
                (Err(error), Err(spec_error)) => error == spec_error && final(self)@ == old(self)@,
                _ => false,
            }),
    {
        broadcast use lemma_tokens_view_push;

        if byte == GREATER_THAN {
            self.tokens.push(Token::RightArrow);
            self.state = State::Start;
            Ok(Action::Continue)
        } else {
            self.tokens.push(Token::Minus);
            self.state = State::Start;
            Ok(Action::Again)
        }
    }

    fn run_fsm(&mut self, byte: u8) -> (r: Result<Action, InternalError>)
        ensures
            (match (r, spec_step(old(self)@, byte)) {
                (Ok(action), Ok((model, spec_action))) => final(self)@ == model && action
                    == spec_action,
                (Err(error), Err(spec_error)) => error == spec_error && final(self)@ == old(self)@,
                _ => false,
            }),
    {
        match self.state {
            State::Start => self.run_fsm_start(byte),
            State::Identifier => self.run_fsm_identifier(byte),
            State::Zero => self.run_fsm_zero(byte),
            State::Dot => self.run_fsm_dot(byte),
            State::Integer => self.run_fsm_integer(byte),
            State::Hexadecimal => self.run_fsm_hexadecimal(byte),
            State::Octal => self.run_fsm_octal(byte),
            State::Binary => self.run_fsm_binary(byte),
            State::Fractional => self.run_fsm_fractional(byte),
            State::Exponent => self.run_fsm_exponent(byte),
            State::Equals => self.run_fsm_equals(byte),
            State::Minus => self.run_fsm_minus(byte),
        }
    }

    /// Runs transitions until the byte is consumed or the machine fails:
    /// the loop body of the reconsume scheme.
    fn feed_byte(&mut self, byte: u8) -> (r: Result<(), InternalError>)
        ensures
            (match (r, spec_feed_byte(old(self)@, byte)) {
                (Ok(()), Ok(model)) => final(self)@ == model,
                (Err(error), Err(spec_error)) => error == spec_error,
                _ => false,
            }),
    {
        loop
            invariant
                spec_feed_byte(self@, byte) == spec_feed_byte(old(self)@, byte),
            decreases (if self@.state is Start {
                0int
            } else {
                1int
            }),
        {
            match self.run_fsm(byte) {
                Ok(Action::Continue) => {
                    return Ok(());
                },
                Ok(Action::Again) => {
                },
                Err(error) => {
                    return Err(error);
                },
            }
        }
    }

    /// Feeds every input byte in order, failing at the first invalid byte
    /// with its offset.
    fn feed_script(&mut self, script: &[u8]) -> (r: Result<(), Error>)
        ensures
            (match (r, spec_feed(old(self)@, script@, 0)) {
                (Ok(()), Ok(model)) => final(self)@ == model,
                (Err(error), Err(spec_error)) => error == spec_error,
                _ => false,
            }),
    {
        for i in 0..script.len()
            invariant
                spec_feed(self@, script@, i as int) == spec_feed(old(self)@, script@, 0),
        {
            let byte = script[i];
            match self.feed_byte(byte) {
                Ok(()) => {
                },
                Err(error) => {
                    return Err(
                        match error {
                            InternalError::UnexpectedByte => Error::UnexpectedByte(i),
                            InternalError::InvalidNumberDigit => Error::InvalidNumberDigit(i),
                            InternalError::LeadingZeroWithoutBase => Error::LeadingZeroWithoutBase(
                                i,
                            ),
                            InternalError::InvalidHexadecimalDigit => (
                            Error::InvalidHexadecimalDigit(i)),
                            InternalError::InvalidOctalDigit => Error::InvalidOctalDigit(i),
                            InternalError::InvalidBinaryDigit => Error::InvalidBinaryDigit(i),
                            InternalError::MissingDigitsAfterBasePrefix => (
                            Error::MissingDigitsAfterBasePrefix(i)),
                        },
                    );
                },
            }
        }
        Ok(())
    }

    /// End-of-input finalization: emits the token still pending in the
    /// current state, or fails where digits are still owed, reporting the
    /// buffer length as the offset.
    fn feed_eof(&mut self, script: &[u8]) -> (r: Result<(), Error>)
        ensures
            (match (r, spec_finalize(old(self)@, script@.len() as usize)) {
                (Ok(()), Ok(emitted)) => final(self)@.tokens == emitted,
                (Err(error), Err(spec_error)) => error == spec_error,
                _ => false,
            }),
    {
        broadcast use lemma_tokens_view_push;

        let script_len = script.len();
        match self.state {
            State::Start => Ok(()),
            State::Identifier => {
                self.classify_identifier();
                Ok(())
            },
            State::Zero => {
                let mut digits: Vec<u8> = Vec::new();
                digits.push(0);
                proof {
                    assert(digits@ =~= seq![0u8]);
                }
                self.tokens.push(Token::Integer(Box::new(IntegerRepresentation::Decimal(digits))));
                Ok(())
            },
            State::Dot => {
                self.tokens.push(Token::Dot);
                Ok(())
            },
            State::Integer => {
                let digits = self.take_integer();
                self.tokens.push(Token::Integer(Box::new(IntegerRepresentation::Decimal(digits))));
                Ok(())
            },
            State::Hexadecimal => {
                if self.integer.len() == 0 {
                    Err(Error::MissingDigitsAfterBasePrefix(script_len))
                } else {
                    let digits = self.take_integer();
                    self.tokens.push(
                        Token::Integer(Box::new(IntegerRepresentation::Hexadecimal(digits))),
                    );
                    Ok(())
                }
            },
            State::Octal => {
                if self.integer.len() == 0 {
                    Err(Error::MissingDigitsAfterBasePrefix(script_len))
                } else {
                    let digits = self.take_integer();
                    self.tokens.push(
                        Token::Integer(Box::new(IntegerRepresentation::Octal(digits))),
                    );
                    Ok(())
                }
            },
            State::Binary => {
                if self.integer.len() == 0 {
                    Err(Error::MissingDigitsAfterBasePrefix(script_len))
                } else {
                    let digits = self.take_integer();
                    self.tokens.push(
                        Token::Integer(Box::new(IntegerRepresentation::Binary(digits))),
                    );
                    Ok(())
                }
            },
            State::Fractional => {
                let float = self.take_decimal_float();
                self.tokens.push(Token::Float(Box::new(float)));
                Ok(())
            },
            State::Exponent => {
                if self.exponent.len() == 0 {
                    Err(Error::MissingDigitsAfterExponentMark(script_len))
                } else {
                    let float = self.take_scientific_float();
                    self.tokens.push(Token::Float(Box::new(float)));
                    Ok(())
                }
            },
            State::Equals => {
                self.tokens.push(Token::Assign);
                Ok(())
            },
            State::Minus => {
                self.tokens.push(Token::Minus);
                Ok(())
            },
        }
    }
}

/// Turns raw source bytes into the token sequence, or fails at the first
/// invalid byte (or invalid end-of-input condition) with its offset.  The
/// result is exactly what the specification-level machine [`spec_tokenize`]
/// yields on the same bytes.
pub fn tokenize(script: &[u8]) -> (r: Result<Vec<Token>, Error>)
    ensures
        (match (r, spec_tokenize(script@)) {
            (Ok(tokens), Ok(emitted)) => tokens_view(tokens@) == emitted,
            (Err(error), Err(spec_error)) => error == spec_error,
            _ => false,
        }),
{
    let mut lexer = Lexer::new();
    match lexer.feed_script(script) {
        Ok(()) => {
        },
        Err(error) => {
            return Err(error);
        },
    }
    match lexer.feed_eof(script) {
        Ok(()) => {
        },
        Err(error) => {
            return Err(error);
        },
    }
    Ok(lexer.tokens)
}

} // verus!

use lexparse::lexer::{tokenize, Error, FloatRepresentation, IntegerRepresentation, Token};

fn decimal(digits: &[u8]) -> Token {
    Token::Integer(Box::new(IntegerRepresentation::Decimal(digits.to_vec())))
}

#[test]
fn test() {
    let mut tokens: Vec<Token>;

    tokens = tokenize(b"0 +0 -0 47 +2 -117").unwrap();
    assert_eq!(
        tokens,
        vec![
            Token::Integer(Box::new(IntegerRepresentation::Decimal(vec![0]))),
            Token::Plus,
            Token::Integer(Box::new(IntegerRepresentation::Decimal(vec![0]))),
            Token::Minus,
            Token::Integer(Box::new(IntegerRepresentation::Decimal(vec![0]))),
            Token::Integer(Box::new(IntegerRepresentation::Decimal(vec![4, 7]))),
            Token::Plus,
            Token::Integer(Box::new(IntegerRepresentation::Decimal(vec![2]))),
            Token::Minus,
            Token::Integer(Box::new(IntegerRepresentation::Decimal(vec![1, 1, 7]))),
        ]
    );

    tokens = tokenize(b"0.0 3.14 0. 3. .0 .14 3.14e10 0.e1 3.e10 .14e10").unwrap();
    assert_eq!(
        tokens,
        vec![
            Token::Float(Box::new(FloatRepresentation::Decimal {
                integer: vec![0],
                fractional: vec![0],
            })),
            Token::Float(Box::new(FloatRepresentation::Decimal {
                integer: vec![3],
                fractional: vec![1, 4],
            })),
            Token::Float(Box::new(FloatRepresentation::Decimal {
                integer: vec![0],
                fractional: vec![],
            })),
            Token::Float(Box::new(FloatRepresentation::Decimal {
                integer: vec![3],
                fractional: vec![],
            })),
            Token::Float(Box::new(FloatRepresentation::Decimal {
                integer: vec![],
                fractional: vec![0],
            })),
            Token::Float(Box::new(FloatRepresentation::Decimal {
                integer: vec![],
                fractional: vec![1, 4],
            })),
            Token::Float(Box::new(FloatRepresentation::Scientific {
                integer: vec![3],
                fractional: vec![1, 4],
                exponent: vec![1, 0],
            })),
            Token::Float(Box::new(FloatRepresentation::Scientific {
                integer: vec![0],
                fractional: vec![],
                exponent: vec![1],
            })),
            Token::Float(Box::new(FloatRepresentation::Scientific {
                integer: vec![3],
                fractional: vec![],
                exponent: vec![1, 0],
            })),
            Token::Float(Box::new(FloatRepresentation::Scientific {
                integer: vec![],
                fractional: vec![1, 4],
                exponent: vec![1, 0],
            })),
        ]
    );

    tokens = tokenize(b"0x64 0o77 0b10100101").unwrap();
    assert_eq!(
        tokens,
        vec![
            Token::Integer(Box::new(IntegerRepresentation::Hexadecimal(vec![6, 4]))),
            Token::Integer(Box::new(IntegerRepresentation::Octal(vec![7, 7]))),
            Token::Integer(Box::new(IntegerRepresentation::Binary(vec![
                1, 0, 1, 0, 0, 1, 0, 1
            ]))),
        ]
    );

    tokens = tokenize(b"let x = 123;").unwrap();
    assert_eq!(
        tokens,
        vec![
            Token::Let,
            Token::Identifier(Box::new(b"x".to_vec())),
            Token::Assign,
            Token::Integer(Box::new(IntegerRepresentation::Decimal(vec![1, 2, 3]))),
            Token::Semicolon,
        ]
    );
}

#[test]
fn empty_input_gives_no_tokens() {
    assert_eq!(tokenize(b"").unwrap(), vec![]);
}

#[test]
fn whitespace_only_gives_no_tokens() {
    assert_eq!(tokenize(b" \t\r\n").unwrap(), vec![]);
}

#[test]
fn plain_decimal_digits_become_values_in_order() {
    assert_eq!(tokenize(b"47").unwrap(), vec![decimal(&[4, 7])]);
    assert_eq!(tokenize(b"907").unwrap(), vec![decimal(&[9, 0, 7])]);
}

#[test]
fn lone_zero_is_the_decimal_zero() {
    assert_eq!(tokenize(b"0").unwrap(), vec![decimal(&[0])]);
}

#[test]
fn zero_before_digit_is_rejected() {
    assert_eq!(tokenize(b"01"), Err(Error::LeadingZeroWithoutBase(1)));
}

#[test]
fn bare_base_prefix_at_end_is_rejected() {
    assert_eq!(tokenize(b"0x"), Err(Error::MissingDigitsAfterBasePrefix(2)));
    assert_eq!(tokenize(b"0o"), Err(Error::MissingDigitsAfterBasePrefix(2)));
    assert_eq!(tokenize(b"0b"), Err(Error::MissingDigitsAfterBasePrefix(2)));
}

#[test]
fn bare_base_prefix_before_other_byte_is_rejected() {
    assert_eq!(tokenize(b"0x "), Err(Error::MissingDigitsAfterBasePrefix(2)));
}

#[test]
fn hexadecimal_literal() {
    assert_eq!(
        tokenize(b"0x64").unwrap(),
        vec![Token::Integer(Box::new(IntegerRepresentation::Hexadecimal(
            vec![6, 4]
        )))]
    );
    assert_eq!(
        tokenize(b"0xaF").unwrap(),
        vec![Token::Integer(Box::new(IntegerRepresentation::Hexadecimal(
            vec![10, 15]
        )))]
    );
}

#[test]
fn octal_literal() {
    assert_eq!(
        tokenize(b"0o77").unwrap(),
        vec![Token::Integer(Box::new(IntegerRepresentation::Octal(vec![
            7, 7
        ])))]
    );
}

#[test]
fn binary_literal() {
    assert_eq!(
        tokenize(b"0b10100101").unwrap(),
        vec![Token::Integer(Box::new(IntegerRepresentation::Binary(
            vec![1, 0, 1, 0, 0, 1, 0, 1]
        )))]
    );
}

#[test]
fn float_forms_round_trip_structurally() {
    assert_eq!(
        tokenize(b"0.0").unwrap(),
        vec![Token::Float(Box::new(FloatRepresentation::Decimal {
            integer: vec![0],
            fractional: vec![0],
        }))]
    );
    assert_eq!(
        tokenize(b"3.").unwrap(),
        vec![Token::Float(Box::new(FloatRepresentation::Decimal {
            integer: vec![3],
            fractional: vec![],
        }))]
    );
    assert_eq!(
        tokenize(b".14").unwrap(),
        vec![Token::Float(Box::new(FloatRepresentation::Decimal {
            integer: vec![],
            fractional: vec![1, 4],
        }))]
    );
    assert_eq!(
        tokenize(b"3.14e10").unwrap(),
        vec![Token::Float(Box::new(FloatRepresentation::Scientific {
            integer: vec![3],
            fractional: vec![1, 4],
            exponent: vec![1, 0],
        }))]
    );
    assert_eq!(
        tokenize(b"0.e1").unwrap(),
        vec![Token::Float(Box::new(FloatRepresentation::Scientific {
            integer: vec![0],
            fractional: vec![],
            exponent: vec![1],
        }))]
    );
}

#[test]
fn integer_switches_to_exponent_without_fraction() {
    assert_eq!(
        tokenize(b"3e10").unwrap(),
        vec![Token::Float(Box::new(FloatRepresentation::Scientific {
            integer: vec![3],
            fractional: vec![],
            exponent: vec![1, 0],
        }))]
    );
}

#[test]
fn empty_exponent_at_end_is_rejected() {
    assert_eq!(tokenize(b"3e"), Err(Error::MissingDigitsAfterExponentMark(2)));
}

#[test]
fn empty_exponent_before_other_byte_is_emitted() {
    // Mid-stream, a non-digit ends the exponent without the emptiness check
    // that end-of-input finalization applies.
    assert_eq!(
        tokenize(b"3e,").unwrap(),
        vec![
            Token::Float(Box::new(FloatRepresentation::Scientific {
                integer: vec![3],
                fractional: vec![],
                exponent: vec![],
            })),
            Token::Comma,
        ]
    );
}

#[test]
fn operator_disambiguation() {
    assert_eq!(tokenize(b"=").unwrap(), vec![Token::Assign]);
    assert_eq!(tokenize(b"==").unwrap(), vec![Token::Equals]);
    assert_eq!(tokenize(b"-").unwrap(), vec![Token::Minus]);
    assert_eq!(tokenize(b"->").unwrap(), vec![Token::RightArrow]);
}

#[test]
fn keyword_versus_identifier() {
    assert_eq!(tokenize(b"let").unwrap(), vec![Token::Let]);
    assert_eq!(
        tokenize(b"letx").unwrap(),
        vec![Token::Identifier(Box::new(b"letx".to_vec()))]
    );
}

#[test]
fn all_keywords_classify() {
    assert_eq!(
        tokenize(b"and else false function if lambda let not or return true xor").unwrap(),
        vec![
            Token::And,
            Token::Else,
            Token::False,
            Token::Function,
            Token::If,
            Token::Lambda,
            Token::Let,
            Token::Not,
            Token::Or,
            Token::Return,
            Token::True,
            Token::Xor,
        ]
    );
}

#[test]
fn single_character_punctuation() {
    assert_eq!(
        tokenize(b"+ * / . , : ; ( ) [ ] { }").unwrap(),
        vec![
            Token::Plus,
            Token::Asterisk,
            Token::ForwardSlash,
            Token::Dot,
            Token::Comma,
            Token::Colon,
            Token::Semicolon,
            Token::LeftParenthesis,
            Token::RightParenthesis,
            Token::LeftBracket,
            Token::RightBracket,
            Token::LeftBrace,
            Token::RightBrace,
        ]
    );
}

#[test]
fn identifiers_take_letters_digits_underscores() {
    assert_eq!(
        tokenize(b"_a1 B_2").unwrap(),
        vec![
            Token::Identifier(Box::new(b"_a1".to_vec())),
            Token::Identifier(Box::new(b"B_2".to_vec())),
        ]
    );
}

#[test]
fn number_ends_where_identifier_begins() {
    assert_eq!(
        tokenize(b"123abc").unwrap(),
        vec![decimal(&[1, 2, 3]), Token::Identifier(Box::new(b"abc".to_vec()))]
    );
}

#[test]
fn unexpected_byte_is_rejected_with_offset() {
    assert_eq!(tokenize(b"?"), Err(Error::UnexpectedByte(0)));
    assert_eq!(tokenize(b"a ?"), Err(Error::UnexpectedByte(2)));
}

#[test]
fn letter_after_zero_is_rejected() {
    assert_eq!(tokenize(b"0z"), Err(Error::InvalidNumberDigit(1)));
}

#[test]
fn out_of_range_digits_are_rejected() {
    assert_eq!(tokenize(b"0xg"), Err(Error::InvalidHexadecimalDigit(2)));
    assert_eq!(tokenize(b"0o8"), Err(Error::InvalidOctalDigit(2)));
    assert_eq!(tokenize(b"0b2"), Err(Error::InvalidBinaryDigit(2)));
}

#[test]
fn bare_dot_is_the_dot_operator() {
    assert_eq!(tokenize(b".").unwrap(), vec![Token::Dot]);
    assert_eq!(tokenize(b"a.b").unwrap(), vec![
        Token::Identifier(Box::new(b"a".to_vec())),
        Token::Dot,
        Token::Identifier(Box::new(b"b".to_vec())),
    ]);
}

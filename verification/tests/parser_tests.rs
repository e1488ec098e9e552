use lexparse::lexer::{tokenize, IntegerRepresentation, Token};
use lexparse::parser::{parse, ASTNode, BinaryOperation, Error, Parser};

fn ident(name: &[u8]) -> ASTNode {
    ASTNode::Identifier(Box::new(name.to_vec()))
}

fn decimal_literal(digits: &[u8]) -> ASTNode {
    ASTNode::IntegerLiteral(Box::new(IntegerRepresentation::Decimal(digits.to_vec())))
}

fn assign(left_operand: ASTNode, right_operand: ASTNode) -> ASTNode {
    ASTNode::Assign(Box::new(BinaryOperation { left_operand, right_operand }))
}

fn add(left_operand: ASTNode, right_operand: ASTNode) -> ASTNode {
    ASTNode::BinaryAddition(Box::new(BinaryOperation { left_operand, right_operand }))
}

fn mul(left_operand: ASTNode, right_operand: ASTNode) -> ASTNode {
    ASTNode::BinaryMultiplication(Box::new(BinaryOperation { left_operand, right_operand }))
}

#[test]
fn end_to_end_let_statement() {
    let tokens = tokenize(b"let x = 123;").unwrap();
    let tree = parse(&tokens).unwrap();
    assert_eq!(tree, assign(ident(b"x"), decimal_literal(&[1, 2, 3])));
}

#[test]
fn trailing_terminator_is_left_unconsumed() {
    let tokens = tokenize(b"let x = 123;").unwrap();
    let mut parser = Parser::new(&tokens);
    let tree = parser.parse().unwrap();
    assert_eq!(tree, assign(ident(b"x"), decimal_literal(&[1, 2, 3])));
    assert_eq!(parser.peek(), &Token::Semicolon);
}

#[test]
fn multiplication_binds_tighter_than_addition() {
    let tokens = tokenize(b"let x = 1 + 2 * 3").unwrap();
    let tree = parse(&tokens).unwrap();
    assert_eq!(
        tree,
        assign(
            ident(b"x"),
            add(
                decimal_literal(&[1]),
                mul(decimal_literal(&[2]), decimal_literal(&[3]))
            )
        )
    );
}

#[test]
fn parentheses_override_precedence() {
    let tokens = tokenize(b"let x = (1 + 2) * 3").unwrap();
    let tree = parse(&tokens).unwrap();
    assert_eq!(
        tree,
        assign(
            ident(b"x"),
            mul(
                add(decimal_literal(&[1]), decimal_literal(&[2])),
                decimal_literal(&[3])
            )
        )
    );
}

#[test]
fn same_precedence_operators_lean_left() {
    let tokens = tokenize(b"let x = 1 - 2 + 3").unwrap();
    let tree = parse(&tokens).unwrap();
    assert_eq!(
        tree,
        assign(
            ident(b"x"),
            add(
                ASTNode::BinarySubtraction(Box::new(BinaryOperation {
                    left_operand: decimal_literal(&[1]),
                    right_operand: decimal_literal(&[2]),
                })),
                decimal_literal(&[3])
            )
        )
    );
}

#[test]
fn division_parses_like_multiplication() {
    let tokens = tokenize(b"let x = a / b").unwrap();
    let tree = parse(&tokens).unwrap();
    assert_eq!(
        tree,
        assign(
            ident(b"x"),
            ASTNode::BinaryDivision(Box::new(BinaryOperation {
                left_operand: ident(b"a"),
                right_operand: ident(b"b"),
            }))
        )
    );
}

#[test]
fn float_literal_becomes_a_float_node() {
    let tokens = tokenize(b"let x = 3.14").unwrap();
    let tree = parse(&tokens).unwrap();
    match tree {
        ASTNode::Assign(operation) => match operation.right_operand {
            ASTNode::FloatLiteral(_) => {}
            other => panic!("expected a float literal, got {:?}", other),
        },
        other => panic!("expected an assignment, got {:?}", other),
    }
}

#[test]
fn script_not_opening_with_let_is_rejected() {
    let tokens = tokenize(b"x = 1").unwrap();
    assert_eq!(parse(&tokens), Err(Error::UnexpectedToken));
    let tokens = tokenize(b"return x").unwrap();
    assert_eq!(parse(&tokens), Err(Error::UnexpectedToken));
    assert_eq!(parse(&[]), Err(Error::UnexpectedToken));
}

#[test]
fn missing_identifier_is_rejected() {
    let tokens = tokenize(b"let 1 = 2").unwrap();
    assert_eq!(parse(&tokens), Err(Error::UnexpectedToken));
}

#[test]
fn missing_assignment_operator_is_rejected() {
    let tokens = tokenize(b"let x 2").unwrap();
    assert_eq!(parse(&tokens), Err(Error::UnexpectedToken));
}

#[test]
fn missing_expression_is_rejected() {
    let tokens = tokenize(b"let x =").unwrap();
    assert_eq!(parse(&tokens), Err(Error::UnexpectedToken));
    let tokens = tokenize(b"let x = ;").unwrap();
    assert_eq!(parse(&tokens), Err(Error::UnexpectedToken));
}

#[test]
fn missing_closing_parenthesis_is_rejected() {
    let tokens = tokenize(b"let x = (1 + 2").unwrap();
    assert_eq!(parse(&tokens), Err(Error::UnexpectedToken));
}

#[test]
fn dangling_binary_operator_is_rejected() {
    let tokens = tokenize(b"let x = 1 +").unwrap();
    assert_eq!(parse(&tokens), Err(Error::UnexpectedToken));
}

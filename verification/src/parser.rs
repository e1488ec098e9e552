//! Recursive-descent parser over the lexer's token sequence.
//!
//! The grammar recognizes one statement form, `let` IDENTIFIER `=`
//! expression, with two levels of left-associative binary operators below
//! it.  A specification-level parser (`spec_parse_statement`) over token
//! models is the reference; `parse` is proved to return exactly its result.

use vstd::prelude::*;

use crate::lexer::{FloatView, IntegerView, Token, TokenView, tokens_view};

verus! {

/// A unary operator application: the operator is the [`ASTNode`] variant
/// that owns this node.
#[derive(Debug, PartialEq)]
pub struct UnaryOperation {
    pub operand: ASTNode,
}

/// A binary operator application: the operator is the [`ASTNode`] variant
/// that owns this node.
#[derive(Debug, PartialEq)]
pub struct BinaryOperation {
    pub left_operand: ASTNode,
    pub right_operand: ASTNode,
}

/// A node of the abstract syntax tree.  The unary forms and the logical
/// binary forms have token support but no grammar production yet; they are
/// reserved extension points.
#[derive(Debug, PartialEq)]
pub enum ASTNode {
    Identifier(Box<Vec<u8>>),
    IntegerLiteral(Box<crate::lexer::IntegerRepresentation>),
    FloatLiteral(Box<crate::lexer::FloatRepresentation>),
    UnaryAddition(Box<UnaryOperation>),
    UnarySubtraction(Box<UnaryOperation>),
    BinaryAddition(Box<BinaryOperation>),
    BinarySubtraction(Box<BinaryOperation>),
    BinaryMultiplication(Box<BinaryOperation>),
    BinaryDivision(Box<BinaryOperation>),
    LogicalAnd(Box<BinaryOperation>),
    LogicalOr(Box<BinaryOperation>),
    LogicalNot(Box<UnaryOperation>),
    LogicalXor(Box<BinaryOperation>),
    Assign(Box<BinaryOperation>),
}

/// A parsing failure.  The parser is fail-fast: the first grammar violation
/// aborts the parse, with no position attached.
#[derive(Debug, PartialEq)]
pub enum Error {
    UnexpectedToken,
}

/// Mathematical model of an [`ASTNode`].
pub enum AstView {
    Identifier(Seq<u8>),
    IntegerLiteral(IntegerView),
    FloatLiteral(FloatView),
    UnaryAddition(Box<AstView>),
    UnarySubtraction(Box<AstView>),
    BinaryAddition(Box<AstView>, Box<AstView>),
    BinarySubtraction(Box<AstView>, Box<AstView>),
    BinaryMultiplication(Box<AstView>, Box<AstView>),
    BinaryDivision(Box<AstView>, Box<AstView>),
    LogicalAnd(Box<AstView>, Box<AstView>),
    LogicalOr(Box<AstView>, Box<AstView>),
    LogicalNot(Box<AstView>),
    LogicalXor(Box<AstView>, Box<AstView>),
    Assign(Box<AstView>, Box<AstView>),
}

/// The model of a syntax tree: each operation node flattened to its
/// operand models.
pub open spec fn ast_view(node: ASTNode) -> AstView
    decreases node,
{
    match node {
        ASTNode::Identifier(name) => AstView::Identifier(name@),
        ASTNode::IntegerLiteral(integer) => AstView::IntegerLiteral(integer@),
        ASTNode::FloatLiteral(float) => AstView::FloatLiteral(float@),
        ASTNode::UnaryAddition(op) => AstView::UnaryAddition(Box::new(ast_view((*op).operand))),
        ASTNode::UnarySubtraction(op) => AstView::UnarySubtraction(
            Box::new(ast_view((*op).operand)),
        ),
        ASTNode::BinaryAddition(op) => AstView::BinaryAddition(
            Box::new(ast_view((*op).left_operand)),
            Box::new(ast_view((*op).right_operand)),
        ),
        ASTNode::BinarySubtraction(op) => AstView::BinarySubtraction(
            Box::new(ast_view((*op).left_operand)),
            Box::new(ast_view((*op).right_operand)),
        ),
        ASTNode::BinaryMultiplication(op) => AstView::BinaryMultiplication(
            Box::new(ast_view((*op).left_operand)),
            Box::new(ast_view((*op).right_operand)),
        ),
        ASTNode::BinaryDivision(op) => AstView::BinaryDivision(
            Box::new(ast_view((*op).left_operand)),
            Box::new(ast_view((*op).right_operand)),
        ),
        ASTNode::LogicalAnd(op) => AstView::LogicalAnd(
            Box::new(ast_view((*op).left_operand)),
            Box::new(ast_view((*op).right_operand)),
        ),
        ASTNode::LogicalOr(op) => AstView::LogicalOr(
            Box::new(ast_view((*op).left_operand)),
            Box::new(ast_view((*op).right_operand)),
        ),
        ASTNode::LogicalNot(op) => AstView::LogicalNot(Box::new(ast_view((*op).operand))),
        ASTNode::LogicalXor(op) => AstView::LogicalXor(
            Box::new(ast_view((*op).left_operand)),
            Box::new(ast_view((*op).right_operand)),
        ),
        ASTNode::Assign(op) => AstView::Assign(
            Box::new(ast_view((*op).left_operand)),
            Box::new(ast_view((*op).right_operand)),
        ),
    }
}

impl View for ASTNode {
    type V = AstView;

    open spec fn view(&self) -> AstView {
        ast_view(*self)
    }
}

/// The token at position `offset`, or the end-of-input sentinel past the
/// end: grammar rules can look ahead without bounds checks.
pub open spec fn spec_peek(tokens: Seq<TokenView>, offset: int) -> TokenView {
    if 0 <= offset < tokens.len() {
        tokens[offset]
    } else {
        TokenView::EOF
    }
}

// The grammar, as mutually recursive functions from a token sequence and a
// cursor to the parsed node and the cursor after it.  Every sub-parser
// advances the cursor on success and keeps it at most at the sequence
// length; the explicit cursor bound checks below record that for the
// termination measure and are never reached.

/// `primary`: an identifier, a literal, or a parenthesized expression.
pub open spec fn spec_parse_primary(tokens: Seq<TokenView>, offset: int) -> Result<
    (AstView, int),
    Error,
>
    decreases tokens.len() - offset, 1int,
{
    match spec_peek(tokens, offset) {
        TokenView::Identifier(name) => Ok((AstView::Identifier(name), offset + 1)),
        TokenView::Integer(integer) => Ok((AstView::IntegerLiteral(integer), offset + 1)),
        TokenView::Float(float) => Ok((AstView::FloatLiteral(float), offset + 1)),
        TokenView::LeftParenthesis => match spec_parse_expression(tokens, offset + 1) {
            Err(error) => Err(error),
            Ok((node, end)) => {
                if spec_peek(tokens, end) == TokenView::RightParenthesis {
                    Ok((node, end + 1))
                } else {
                    Err(Error::UnexpectedToken)
                }
            },
        },
        _ => Err(Error::UnexpectedToken),
    }
}

/// The iterated tail of `factor`: as long as a `*` or `/` follows, parse
/// one more primary and hang it to the right of the node built so far.
pub open spec fn spec_parse_factor_rest(
    tokens: Seq<TokenView>,
    offset: int,
    left: AstView,
) -> Result<(AstView, int), Error>
    decreases tokens.len() - offset, 0int,
{
    let next = spec_peek(tokens, offset);
    if next == TokenView::Asterisk || next == TokenView::ForwardSlash {
        match spec_parse_primary(tokens, offset + 1) {
            Err(error) => Err(error),
            Ok((right, end)) => {
                let joined = if next == TokenView::Asterisk {
                    AstView::BinaryMultiplication(Box::new(left), Box::new(right))
                } else {
                    AstView::BinaryDivision(Box::new(left), Box::new(right))
                };
                if offset < end <= tokens.len() {
                    spec_parse_factor_rest(tokens, end, joined)
                } else {
                    Err(Error::UnexpectedToken)
                }
            },
        }
    } else {
        Ok((left, offset))
    }
}

/// `factor`: `primary (('*' | '/') primary)*`, left-associative.
pub open spec fn spec_parse_factor(tokens: Seq<TokenView>, offset: int) -> Result<
    (AstView, int),
    Error,
>
    decreases tokens.len() - offset, 2int,
{
    match spec_parse_primary(tokens, offset) {
        Err(error) => Err(error),
        Ok((left, end)) => {
            if offset < end <= tokens.len() {
                spec_parse_factor_rest(tokens, end, left)
            } else {
                Err(Error::UnexpectedToken)
            }
        },
    }
}

/// The iterated tail of `term`: as long as a `+` or `-` follows, parse one
/// more factor and hang it to the right of the node built so far.
pub open spec fn spec_parse_term_rest(
    tokens: Seq<TokenView>,
    offset: int,
    left: AstView,
) -> Result<(AstView, int), Error>
    decreases tokens.len() - offset, 3int,
{
    let next = spec_peek(tokens, offset);
    if next == TokenView::Plus || next == TokenView::Minus {
        match spec_parse_factor(tokens, offset + 1) {
            Err(error) => Err(error),
            Ok((right, end)) => {
                let joined = if next == TokenView::Plus {
                    AstView::BinaryAddition(Box::new(left), Box::new(right))
                } else {
                    AstView::BinarySubtraction(Box::new(left), Box::new(right))
                };
                if offset < end <= tokens.len() {
                    spec_parse_term_rest(tokens, end, joined)
                } else {
                    Err(Error::UnexpectedToken)
                }
            },
        }
    } else {
        Ok((left, offset))
    }
}

/// `term`: `factor (('+' | '-') factor)*`, left-associative.
pub open spec fn spec_parse_term(tokens: Seq<TokenView>, offset: int) -> Result<
    (AstView, int),
    Error,
>
    decreases tokens.len() - offset, 4int,
{
    match spec_parse_factor(tokens, offset) {
        Err(error) => Err(error),
        Ok((left, end)) => {
            if offset < end <= tokens.len() {
                spec_parse_term_rest(tokens, end, left)
            } else {
                Err(Error::UnexpectedToken)
            }
        },
    }
}

/// `expression`: currently just a term; the lowest precedence level.
pub open spec fn spec_parse_expression(tokens: Seq<TokenView>, offset: int) -> Result<
    (AstView, int),
    Error,
>
    decreases tokens.len() - offset, 5int,
{
    spec_parse_term(tokens, offset)
}

/// The one statement form: `let` IDENTIFIER `=` expression.  The cursor
/// after a successful parse stands on whatever followed the expression; a
/// trailing terminator is left unconsumed.
pub open spec fn spec_parse_statement(tokens: Seq<TokenView>, offset: int) -> Result<
    (AstView, int),
    Error,
> {
    if spec_peek(tokens, offset) == TokenView::Let {
        match spec_peek(tokens, offset + 1) {
            TokenView::Identifier(name) => {
                if spec_peek(tokens, offset + 2) == TokenView::Assign {
                    match spec_parse_expression(tokens, offset + 3) {
                        Err(error) => Err(error),
                        Ok((right, end)) => Ok(
                            (
                                AstView::Assign(
                                    Box::new(AstView::Identifier(name)),
                                    Box::new(right),
                                ),
                                end,
                            ),
                        ),
                    }
                } else {
                    Err(Error::UnexpectedToken)
                }
            },
            _ => Err(Error::UnexpectedToken),
        }
    } else {
        Err(Error::UnexpectedToken)
    }
}

/// Any token sequence that does not open with `let` is rejected.
pub proof fn lemma_non_let_rejected(tokens: Seq<TokenView>)
    requires
        tokens.len() == 0 || tokens[0] != TokenView::Let,
    ensures
        spec_parse_statement(tokens, 0) == Err::<(AstView, int), Error>(Error::UnexpectedToken),
{
}

/// A forward cursor over a token sequence, with the end-of-input sentinel
/// owned alongside so lookahead never fails.
pub struct Parser<'a> {
    tokens: &'a [Token],
    eof_token: Token,
    length: usize,
    offset: usize,
}

impl<'a> Parser<'a> {
    /// The models of the tokens under the cursor.
    pub closed spec fn toks(&self) -> Seq<TokenView> {
        tokens_view(self.tokens@)
    }

    /// The cursor position.
    pub closed spec fn off(&self) -> int {
        self.offset as int
    }

    /// The owned sentinel really is the end-of-input token, the recorded
    /// length is the sequence length, and the cursor never passes it.
    pub closed spec fn wf(&self) -> bool {
        &&& self.eof_token == Token::EOF
        &&& self.length == self.tokens@.len()
        &&& self.offset <= self.length
    }

    pub fn new(tokens: &'a [Token]) -> (parser: Self)
        ensures
            parser.wf(),
            parser.toks() == tokens_view(tokens@),
            parser.off() == 0,
    {
        Parser { tokens, eof_token: Token::EOF, length: tokens.len(), offset: 0 }
    }

    /// The token at the cursor, or the sentinel past the end.
    pub fn peek(&self) -> (token: &Token)
        requires
            self.wf(),
        ensures
            token@ == spec_peek(self.toks(), self.off()),
    {
        if self.offset != self.length {
            vstd::slice::slice_index_get(self.tokens, self.offset)
        } else {
            &self.eof_token
        }
    }

    /// The token at the cursor, moving the cursor past it; the sentinel,
    /// with the cursor unmoved, at the end.
    pub fn consume(&mut self) -> (token: &Token)
        requires
            old(self).wf(),
        ensures
            final(self).wf(),
            final(self).toks() == old(self).toks(),
            token@ == spec_peek(old(self).toks(), old(self).off()),
            final(self).off() == (if old(self).off() < old(self).toks().len() {
                old(self).off() + 1
            } else {
                old(self).off()
            }),
    {
        if self.offset != self.length {
            let token = vstd::slice::slice_index_get(self.tokens, self.offset);
            self.offset = self.offset + 1;
            token
        } else {
            &self.eof_token
        }
    }

    /// Moves the cursor one token forward, never past the end.
    pub fn advance(&mut self)
        requires
            old(self).wf(),
        ensures
            final(self).wf(),
            final(self).toks() == old(self).toks(),
            final(self).off() == (if old(self).off() < old(self).toks().len() {
                old(self).off() + 1
            } else {
                old(self).off()
            }),
    {
        if self.offset != self.length {
            self.offset = self.offset + 1;
        }
    }

    fn parse_primary(&mut self) -> (r: Result<ASTNode, Error>)
        requires
            old(self).wf(),
        ensures
            final(self).wf(),
            final(self).toks() == old(self).toks(),
            (match (r, spec_parse_primary(old(self).toks(), old(self).off())) {
                (Ok(node), Ok((view, end))) => node@ == view && final(self).off() == end,
                (Err(error), Err(spec_error)) => error == spec_error,
                _ => false,
            }),
            r is Ok ==> old(self).off() < final(self).off() <= old(self).toks().len(),
        decreases old(self).toks().len() - old(self).off(), 1int,
    {
        match self.consume() {
            Token::Identifier(name) => Ok(
                ASTNode::Identifier(Box::new(crate::lexer::clone_bytes(name))),
            ),
            Token::Integer(integer) => Ok(ASTNode::IntegerLiteral(Box::new((**integer).clone()))),
            Token::Float(float) => Ok(ASTNode::FloatLiteral(Box::new((**float).clone()))),
            Token::LeftParenthesis => {
                let node = match self.parse_expression() {
                    Ok(node) => node,
                    Err(error) => {
                        return Err(error);
                    },
                };
                match self.consume() {
                    Token::RightParenthesis => Ok(node),
                    _ => Err(Error::UnexpectedToken),
                }
            },
            _ => Err(Error::UnexpectedToken),
        }
    }

    fn parse_factor(&mut self) -> (r: Result<ASTNode, Error>)
        requires
            old(self).wf(),
        ensures
            final(self).wf(),
            final(self).toks() == old(self).toks(),
            (match (r, spec_parse_factor(old(self).toks(), old(self).off())) {
                (Ok(node), Ok((view, end))) => node@ == view && final(self).off() == end,
                (Err(error), Err(spec_error)) => error == spec_error,
                _ => false,
            }),
            r is Ok ==> old(self).off() < final(self).off() <= old(self).toks().len(),
        decreases old(self).toks().len() - old(self).off(), 2int,
    {
        let mut operand = match self.parse_primary() {
            Ok(node) => node,
            Err(error) => {
                return Err(error);
            },
        };
        loop
            invariant
                self.wf(),
                self.toks() == old(self).toks(),
                old(self).off() < self.off() <= self.toks().len(),
                spec_parse_factor(old(self).toks(), old(self).off()) == spec_parse_factor_rest(
                    self.toks(),
                    self.off(),
                    operand@,
                ),
            decreases self.toks().len() - self.off(),
        {
            let is_multiplication = match self.peek() {
                Token::Asterisk => true,
                Token::ForwardSlash => false,
                _ => {
                    return Ok(operand);
                },
            };
            self.consume();
            let right_operand = match self.parse_primary() {
                Ok(node) => node,
                Err(error) => {
                    return Err(error);
                },
            };
            operand = if is_multiplication {
                ASTNode::BinaryMultiplication(
                    Box::new(BinaryOperation { left_operand: operand, right_operand }),
                )
            } else {
                ASTNode::BinaryDivision(
                    Box::new(BinaryOperation { left_operand: operand, right_operand }),
                )
            };
        }
    }

    fn parse_term(&mut self) -> (r: Result<ASTNode, Error>)
        requires
            old(self).wf(),
        ensures
            final(self).wf(),
            final(self).toks() == old(self).toks(),
            (match (r, spec_parse_term(old(self).toks(), old(self).off())) {
                (Ok(node), Ok((view, end))) => node@ == view && final(self).off() == end,
                (Err(error), Err(spec_error)) => error == spec_error,
                _ => false,
            }),
            r is Ok ==> old(self).off() < final(self).off() <= old(self).toks().len(),
        decreases old(self).toks().len() - old(self).off(), 4int,
    {
        let mut operand = match self.parse_factor() {
            Ok(node) => node,
            Err(error) => {
                return Err(error);
            },
        };
        loop
            invariant
                self.wf(),
                self.toks() == old(self).toks(),
                old(self).off() < self.off() <= self.toks().len(),
                spec_parse_term(old(self).toks(), old(self).off()) == spec_parse_term_rest(
                    self.toks(),
                    self.off(),
                    operand@,
                ),
            decreases self.toks().len() - self.off(),
        {
            let is_addition = match self.peek() {
                Token::Plus => true,
                Token::Minus => false,
                _ => {
                    return Ok(operand);
                },
            };
            self.consume();
            let right_operand = match self.parse_factor() {
                Ok(node) => node,
                Err(error) => {
                    return Err(error);
                },
            };
            operand = if is_addition {
                ASTNode::BinaryAddition(
                    Box::new(BinaryOperation { left_operand: operand, right_operand }),
                )
            } else {
                ASTNode::BinarySubtraction(
                    Box::new(BinaryOperation { left_operand: operand, right_operand }),
                )
            };
        }
    }

    fn parse_expression(&mut self) -> (r: Result<ASTNode, Error>)
        requires
            old(self).wf(),
        ensures
            final(self).wf(),
            final(self).toks() == old(self).toks(),
            (match (r, spec_parse_expression(old(self).toks(), old(self).off())) {
                (Ok(node), Ok((view, end))) => node@ == view && final(self).off() == end,
                (Err(error), Err(spec_error)) => error == spec_error,
                _ => false,
            }),
            r is Ok ==> old(self).off() < final(self).off() <= old(self).toks().len(),
        decreases old(self).toks().len() - old(self).off(), 5int,
    {
        self.parse_term()
    }

    /// Parses the one statement form from the cursor on.  On success the
    /// cursor stands on whatever followed the expression: a trailing
    /// terminator such as `;` is left unconsumed.
    pub fn parse(&mut self) -> (r: Result<ASTNode, Error>)
        requires
            old(self).wf(),
        ensures
            final(self).wf(),
            final(self).toks() == old(self).toks(),
            (match (r, spec_parse_statement(old(self).toks(), old(self).off())) {
                (Ok(node), Ok((view, end))) => node@ == view && final(self).off() == end,
                (Err(error), Err(spec_error)) => error == spec_error,
                _ => false,
            }),
    {
        match self.consume() {
            Token::Let => {
            },
            _ => {
                return Err(Error::UnexpectedToken);
            },
        }
        let left_operand = match self.consume() {
            Token::Identifier(name) => ASTNode::Identifier(
                Box::new(crate::lexer::clone_bytes(name)),
            ),
            _ => {
                return Err(Error::UnexpectedToken);
            },
        };
        proof {
            assert(left_operand@ == AstView::Identifier(
                spec_peek(old(self).toks(), old(self).off() + 1)->Identifier_0,
            ));
        }
        match self.consume() {
            Token::Assign => {
            },
            _ => {
                return Err(Error::UnexpectedToken);
            },
        }
        let right_operand = match self.parse_expression() {
            Ok(node) => node,
            Err(error) => {
                return Err(error);
            },
        };
        Ok(ASTNode::Assign(Box::new(BinaryOperation { left_operand, right_operand })))
    }
}

/// Parses the token sequence into the syntax tree of its one statement, or
/// fails at the first unexpected token.  The result is exactly what the
/// specification-level parser [`spec_parse_statement`] yields on the same
/// tokens from position zero.
pub fn parse(tokens: &[Token]) -> (r: Result<ASTNode, Error>)
    ensures
        (match (r, spec_parse_statement(tokens_view(tokens@), 0)) {
            (Ok(node), Ok((view, end))) => node@ == view,
            (Err(error), Err(spec_error)) => error == spec_error,
            _ => false,
        }),
{
    let mut parser = Parser::new(tokens);
    parser.parse()
}

} // verus!

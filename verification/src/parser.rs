//! The parser's data: the syntax tree of the language, and a cursor over
//! the token list with the operations that statement parsing builds on.

use vstd::prelude::*;

use crate::lexer::{Delimiter, Literal, Operator, Span, Token};

verus! {

/// An expression.
pub enum Expr {
    Literal(Literal),
    Identifier(String),
    BinaryOp { left: Box<Expr>, operator: Operator, right: Box<Expr> },
    UnaryOp { operator: Operator, operand: Box<Expr> },
    Call { function: Box<Expr>, arguments: Vec<Expr> },
    Assignment { target: Box<Expr>, value: Box<Expr> },
}

/// A statement.
pub enum Stmt {
    Expr(Expr),
    Let { name: String, value: Expr },
    Func { name: String, params: Vec<Param>, body: Box<Stmt>, ty: Type },
    If { condition: Expr, then_branch: Box<Stmt>, else_branch: Option<Box<Stmt>> },
    Loop { body: Box<Stmt> },
    While { condition: Expr, body: Box<Stmt> },
    Scope { statements: Vec<Stmt> },
    Return { value: Option<Expr> },
    Extern { name: String, params: Vec<Param>, ty: Type },
    Break,
    Continue,
}

/// A type as written in the source.
pub enum Type {
    Named(String),
    I8,
    I16,
    I32,
    I64,
    ISize,
    U8,
    U16,
    U32,
    U64,
    Usize,
    F32,
    F64,
    Pointer(Box<Type>),
    Bool,
    Unit,
}

/// A function parameter: its name and type.
pub struct Param {
    name: String,
    ty: Type,
}

/// Why parsing stopped.
#[derive(Debug)]
pub enum ParseError {
    /// A token was needed at `position`, but the input had ended there.
    UnexpectedEnd { position: usize },
    /// The token at `span` is `found`, where the delimiter `expected` was needed.
    ExpectedDelimiter { expected: Delimiter, span: Span, found: Token },
}

/// A parser: the token list, the position of the next token to read, and
/// the statements parsed so far.
pub struct Parser {
    tokens: Vec<(Token, Span)>,
    position: usize,
    scope_stack: Vec<Stmt>,
}

impl Parser {
    /// The token list.
    pub closed spec fn token_list(&self) -> Seq<(Token, Span)> {
        self.tokens@
    }

    /// The index of the next token to read.
    pub closed spec fn pos(&self) -> int {
        self.position as int
    }

    /// The statements parsed so far.
    pub closed spec fn statements(&self) -> Seq<Stmt> {
        self.scope_stack@
    }

    /// The input has ended: the position is past the last token, or the
    /// token there is `Eof`.
    pub open spec fn at_end(&self) -> bool {
        self.pos() >= self.token_list().len() || self.token_list()[self.pos()].0 is Eof
    }

    /// A parser at the first of `tokens`, with no statements.
    pub fn new(tokens: Vec<(Token, Span)>) -> (p: Self)
        ensures
            p.token_list() == tokens@,
            p.pos() == 0,
            p.statements() == Seq::<Stmt>::empty(),
    {
        Self { tokens, position: 0, scope_stack: Vec::new() }
    }

    fn is_at_end(&self) -> (r: bool)
        ensures
            r == self.at_end(),
    {
        if self.position < self.tokens.len() {
            match &self.tokens[self.position].0 {
                Token::Eof => true,
                _ => false,
            }
        } else {
            true
        }
    }

    /// Reads the next token: at the end of the input an `UnexpectedEnd`
    /// error, with nothing changed.
    fn advance(&mut self) -> (r: Result<&(Token, Span), ParseError>)
        ensures
            final(self).token_list() == old(self).token_list(),
            final(self).statements() == old(self).statements(),
            old(self).at_end() ==> {
                &&& final(self).pos() == old(self).pos()
                &&& (r matches Err(ParseError::UnexpectedEnd { position }) && position == old(
                    self,
                ).pos())
            },
            !old(self).at_end() ==> {
                &&& final(self).pos() == old(self).pos() + 1
                &&& (r matches Ok(t) && *t == old(self).token_list()[old(self).pos()])
            },
    {
        if self.is_at_end() {
            return Err(ParseError::UnexpectedEnd { position: self.position });
        }
        let i = self.position;
        let n = self.tokens.len();
        assert(i < n);
        self.position = i + 1;
        Ok(&self.tokens[i])
    }

    /// The next token, without reading it: at the end of the input an
    /// `UnexpectedEnd` error.
    fn peek(&self) -> (r: Result<&(Token, Span), ParseError>)
        ensures
            self.at_end() ==> (r matches Err(ParseError::UnexpectedEnd { position }) && position
                == self.pos()),
            !self.at_end() ==> (r matches Ok(t) && *t == self.token_list()[self.pos()]),
    {
        if self.is_at_end() {
            return Err(ParseError::UnexpectedEnd { position: self.position });
        }
        Ok(&self.tokens[self.position])
    }

    /// Reads the next token if it is the delimiter `expected`; otherwise an
    /// error, with nothing changed.
    fn expect_delim(&mut self, expected: Delimiter) -> (r: Result<&(Token, Span), ParseError>)
        ensures
            final(self).token_list() == old(self).token_list(),
            final(self).statements() == old(self).statements(),
            old(self).at_end() ==> {
                &&& final(self).pos() == old(self).pos()
                &&& (r matches Err(ParseError::UnexpectedEnd { position }) && position == old(
                    self,
                ).pos())
            },
            !old(self).at_end() ==> {
                let (tok, span) = old(self).token_list()[old(self).pos()];
                if tok matches Token::Delimiter(d) && d == expected {
                    &&& final(self).pos() == old(self).pos() + 1
                    &&& (r matches Ok(t) && *t == (tok, span))
                } else {
                    &&& final(self).pos() == old(self).pos()
                    &&& (r matches Err(ParseError::ExpectedDelimiter { expected: x, span: s, found })
                        && x == expected && s == span && found@ == tok@)
                }
            },
    {
        let (token, span) = match self.peek() {
            Ok(t) => t,
            Err(e) => {
                return Err(e);
            },
        };
        let matches_expected = match token {
            Token::Delimiter(delim) => *delim == expected,
            _ => false,
        };
        if !matches_expected {
            return Err(
                ParseError::ExpectedDelimiter { expected, span: *span, found: token.duplicate() },
            );
        }
        self.advance()
    }

    /// Parses statements up to the end of the input. Statement parsing is
    /// not written yet (a statement would stop the program), so only an
    /// input that has already ended can be parsed, which succeeds with
    /// nothing changed.
    pub fn parse(&mut self) -> (r: Result<(), ParseError>)
        requires
            old(self).at_end(),
        ensures
            r is Ok,
            *final(self) == *old(self),
    {
        Ok(())
    }
}

} // verus!

//! Recursive-descent parser from tokens to statements.
//!
//! Grammar, from lowest to highest precedence:
//! ```text
//! program    = { statement }
//! statement  = templateText | '{{' expression '}}' | for | if
//! for        = '{{' 'for' IDENT 'in' call '}}' { statement } '{{' 'end' '}}'
//! if         = '{{' 'if' expression '}}' { statement }
//!              [ '{{' 'else' '}}' { statement } ] '{{' 'end' '}}'
//! expression = or
//! or         = and { '||' and }
//! and        = equality { '&&' equality }
//! equality   = unary { ( '==' | '!=' ) unary }
//! unary      = [ '!' ] call
//! call       = IDENT { '.' IDENT } | STRING
//! ```
use vstd::prelude::*;

use crate::expression::{
    BinaryExpression, BinaryOperator, CallExpression, Expression, LiteralExpression,
    TemplateLiteralExpression, UnaryExpression, UnaryOperator, VariableExpression,
};
use crate::statement::{model_of, models_of, ForStatement, IfStatement, Statement, StatementModel};
use crate::tokenizer::{Token, TokenType};

verus! {

/// Why a token sequence could not be parsed.
#[derive(PartialEq, Eq, Structural, Debug, Clone, Copy)]
pub enum ParseError {
    /// A token of kind `found` stands where one of kind `expected` must.
    UnexpectedToken { expected: TokenType, found: TokenType },
    /// The tokens ran out inside a construct.
    UnexpectedEndOfInput,
}

/// Whether the token at `p` has kind `kind`.
pub open spec fn at<'a>(toks: Seq<Token<'a>>, p: int, kind: TokenType) -> bool {
    0 <= p < toks.len() && toks[p].token_type == kind
}

/// The error for a missing token of kind `kind` at `p`.
pub open spec fn missing<'a>(toks: Seq<Token<'a>>, p: int, kind: TokenType) -> ParseError {
    if p < 0 || p >= toks.len() {
        ParseError::UnexpectedEndOfInput
    } else {
        ParseError::UnexpectedToken { expected: kind, found: toks[p].token_type }
    }
}

/// `IDENT`
pub open spec fn spec_identifier<'a>(toks: Seq<Token<'a>>, p: int) -> Result<(Expression<'a>, int), ParseError> {
    if at(toks, p, TokenType::Identifier) {
        Ok((Expression::Variable(VariableExpression { name: toks[p].token_value }), p + 1))
    } else {
        Err(missing(toks, p, TokenType::Identifier))
    }
}

/// `STRING`
pub open spec fn spec_literal<'a>(toks: Seq<Token<'a>>, p: int) -> Result<(Expression<'a>, int), ParseError> {
    if at(toks, p, TokenType::StringLiteral) {
        Ok((Expression::Literal(LiteralExpression { token: toks[p] }), p + 1))
    } else {
        Err(missing(toks, p, TokenType::StringLiteral))
    }
}

/// `{ '.' IDENT }` after `callee`, left-associative.
pub open spec fn spec_call_rest<'a>(toks: Seq<Token<'a>>, callee: Expression<'a>, p: int) -> Result<(Expression<'a>, int), ParseError>
    decreases toks.len() - p,
{
    if p < 0 || p >= toks.len() {
        Err(ParseError::UnexpectedEndOfInput)
    } else if toks[p].token_type != TokenType::Dot {
        Ok((callee, p))
    } else if !at(toks, p + 1, TokenType::Identifier) {
        Err(missing(toks, p + 1, TokenType::Identifier))
    } else {
        spec_call_rest(
            toks,
            Expression::Call(CallExpression { callee: Box::new(callee), name: toks[p + 1].token_value }),
            p + 2,
        )
    }
}

/// `call = IDENT { '.' IDENT } | STRING`
pub open spec fn spec_call<'a>(toks: Seq<Token<'a>>, p: int) -> Result<(Expression<'a>, int), ParseError> {
    if p < 0 || p >= toks.len() {
        Err(ParseError::UnexpectedEndOfInput)
    } else if toks[p].token_type == TokenType::Identifier {
        spec_call_rest(toks, Expression::Variable(VariableExpression { name: toks[p].token_value }), p + 1)
    } else {
        spec_literal(toks, p)
    }
}

/// `unary = [ '!' ] call`
pub open spec fn spec_unary<'a>(toks: Seq<Token<'a>>, p: int) -> Result<(Expression<'a>, int), ParseError> {
    if p < 0 || p >= toks.len() {
        Err(ParseError::UnexpectedEndOfInput)
    } else if toks[p].token_type == TokenType::Exclamation {
        match spec_call(toks, p + 1) {
            Ok((e, q)) => Ok((Expression::Unary(UnaryExpression { operator: UnaryOperator::Not, right: Box::new(e) }), q)),
            Err(err) => Err(err),
        }
    } else {
        spec_call(toks, p)
    }
}

/// The operator that a token stands for in an infix position of `level`
/// (0: `||`, 1: `&&`, 2: `==` and `!=`).
pub open spec fn infix_operator(kind: TokenType, level: nat) -> Option<BinaryOperator> {
    if level == 0 && kind == TokenType::DoublePipe {
        Some(BinaryOperator::Or)
    } else if level == 1 && kind == TokenType::DoubleAmpersand {
        Some(BinaryOperator::And)
    } else if level == 2 && kind == TokenType::DoubleEquals {
        Some(BinaryOperator::Equals)
    } else if level == 2 && kind == TokenType::ExclamationEqual {
        Some(BinaryOperator::NotEquals)
    } else {
        None
    }
}

/// An operand at `level`: `or` at 0, `and` at 1, `equality` at 2, `unary`
/// at 3.
pub open spec fn spec_level<'a>(toks: Seq<Token<'a>>, p: int, level: nat) -> Result<(Expression<'a>, int), ParseError>
    decreases toks.len() - p, 3 - level, 1nat,
{
    if level >= 3 {
        spec_unary(toks, p)
    } else {
        match spec_level(toks, p, level + 1) {
            Err(err) => Err(err),
            Ok((left, q)) => if p < q <= toks.len() {
                spec_level_rest(toks, left, q, level)
            } else {
                Err(ParseError::UnexpectedEndOfInput)
            },
        }
    }
}

/// `{ op operand }` after `left` at `level`, left-associative.
pub open spec fn spec_level_rest<'a>(toks: Seq<Token<'a>>, left: Expression<'a>, p: int, level: nat) -> Result<(Expression<'a>, int), ParseError>
    decreases toks.len() - p, 3 - level, 0nat,
{
    if p < 0 || p >= toks.len() || level >= 3 {
        Err(ParseError::UnexpectedEndOfInput)
    } else {
        match infix_operator(toks[p].token_type, level) {
            None => Ok((left, p)),
            Some(op) => match spec_level(toks, p + 1, level + 1) {
                Err(err) => Err(err),
                Ok((right, q)) => if p < q <= toks.len() {
                    spec_level_rest(
                        toks,
                        Expression::Binary(BinaryExpression { left: Box::new(left), operator: op, right: Box::new(right) }),
                        q,
                        level,
                    )
                } else {
                    Err(ParseError::UnexpectedEndOfInput)
                },
            },
        }
    }
}

/// `expression = or`
pub open spec fn spec_expression<'a>(toks: Seq<Token<'a>>, p: int) -> Result<(Expression<'a>, int), ParseError> {
    spec_level(toks, p, 0)
}

/// What parsing one statement gives: a statement and the position after it,
/// or a stop at an `end` or `else` (the position of that keyword).
pub enum StatementStep<'a> {
    Parsed(StatementModel<'a>, int),
    Stop(int),
}

/// `for` after its `{{`, with `p` at the keyword.
pub open spec fn spec_for<'a>(toks: Seq<Token<'a>>, p: int) -> Result<(StatementModel<'a>, int), ParseError>
    decreases toks.len() - p, 1nat,
{
    if !at(toks, p, TokenType::For) {
        Err(missing(toks, p, TokenType::For))
    } else if !at(toks, p + 1, TokenType::Identifier) {
        Err(missing(toks, p + 1, TokenType::Identifier))
    } else if !at(toks, p + 2, TokenType::In) {
        Err(missing(toks, p + 2, TokenType::In))
    } else if !at(toks, p + 3, TokenType::Identifier) {
        Err(missing(toks, p + 3, TokenType::Identifier))
    } else {
        match spec_call(toks, p + 3) {
            Err(err) => Err(err),
            Ok((array, q)) => if !at(toks, q, TokenType::DoubleRightBrackets) {
                Err(missing(toks, q, TokenType::DoubleRightBrackets))
            } else if !(p < q < toks.len()) {
                Err(ParseError::UnexpectedEndOfInput)
            } else {
                match spec_list(toks, q + 1) {
                    Err(err) => Err(err),
                    Ok((body, r)) => if !at(toks, r, TokenType::End) {
                        Err(missing(toks, r, TokenType::End))
                    } else if !at(toks, r + 1, TokenType::DoubleRightBrackets) {
                        Err(missing(toks, r + 1, TokenType::DoubleRightBrackets))
                    } else {
                        Ok((StatementModel::For {
                            instance_identifier: toks[p + 1].token_value,
                            array_variable: array,
                            statements: body,
                        }, r + 2))
                    },
                }
            },
        }
    }
}

/// `if` after its `{{`, with `p` at the keyword.
pub open spec fn spec_if<'a>(toks: Seq<Token<'a>>, p: int) -> Result<(StatementModel<'a>, int), ParseError>
    decreases toks.len() - p, 1nat,
{
    if !at(toks, p, TokenType::If) {
        Err(missing(toks, p, TokenType::If))
    } else {
        match spec_expression(toks, p + 1) {
            Err(err) => Err(err),
            Ok((condition, q)) => if !at(toks, q, TokenType::DoubleRightBrackets) {
                Err(missing(toks, q, TokenType::DoubleRightBrackets))
            } else if !(p < q < toks.len()) {
                Err(ParseError::UnexpectedEndOfInput)
            } else {
                match spec_list(toks, q + 1) {
                    Err(err) => Err(err),
                    Ok((then_body, r)) => if r < 0 || r >= toks.len() {
                        Err(ParseError::UnexpectedEndOfInput)
                    } else if toks[r].token_type == TokenType::Else {
                        if !at(toks, r + 1, TokenType::DoubleRightBrackets) {
                            Err(missing(toks, r + 1, TokenType::DoubleRightBrackets))
                        } else if !(p < r) {
                            Err(ParseError::UnexpectedEndOfInput)
                        } else {
                            match spec_list(toks, r + 2) {
                                Err(err) => Err(err),
                                Ok((else_body, r2)) => if !at(toks, r2, TokenType::End) {
                                    Err(missing(toks, r2, TokenType::End))
                                } else if !at(toks, r2 + 1, TokenType::DoubleRightBrackets) {
                                    Err(missing(toks, r2 + 1, TokenType::DoubleRightBrackets))
                                } else {
                                    Ok((StatementModel::If {
                                        condition,
                                        if_statements: then_body,
                                        else_statements: else_body,
                                    }, r2 + 2))
                                },
                            }
                        }
                    } else if !at(toks, r, TokenType::End) {
                        Err(missing(toks, r, TokenType::End))
                    } else if !at(toks, r + 1, TokenType::DoubleRightBrackets) {
                        Err(missing(toks, r + 1, TokenType::DoubleRightBrackets))
                    } else {
                        Ok((StatementModel::If {
                            condition,
                            if_statements: then_body,
                            else_statements: seq![],
                        }, r + 2))
                    },
                }
            },
        }
    }
}

/// One statement at `p`.
pub open spec fn spec_statement<'a>(toks: Seq<Token<'a>>, p: int) -> Result<StatementStep<'a>, ParseError>
    decreases toks.len() - p, 2nat,
{
    if p < 0 || p >= toks.len() {
        Err(ParseError::UnexpectedEndOfInput)
    } else if toks[p].token_type == TokenType::TemplateLiteral {
        Ok(StatementStep::Parsed(
            StatementModel::Expression(Expression::TemplateLiteral(TemplateLiteralExpression { value: toks[p].token_value })),
            p + 1,
        ))
    } else if toks[p].token_type != TokenType::DoubleLeftBrackets {
        Err(ParseError::UnexpectedToken { expected: TokenType::DoubleLeftBrackets, found: toks[p].token_type })
    } else if p + 1 >= toks.len() {
        Err(ParseError::UnexpectedEndOfInput)
    } else {
        let kind = toks[p + 1].token_type;
        if kind == TokenType::For {
            match spec_for(toks, p + 1) {
                Ok((s, q)) => Ok(StatementStep::Parsed(s, q)),
                Err(err) => Err(err),
            }
        } else if kind == TokenType::If {
            match spec_if(toks, p + 1) {
                Ok((s, q)) => Ok(StatementStep::Parsed(s, q)),
                Err(err) => Err(err),
            }
        } else if kind == TokenType::End || kind == TokenType::Else {
            Ok(StatementStep::Stop(p + 1))
        } else {
            match spec_expression(toks, p + 1) {
                Err(err) => Err(err),
                Ok((e, q)) => if at(toks, q, TokenType::DoubleRightBrackets) {
                    Ok(StatementStep::Parsed(StatementModel::Expression(e), q + 1))
                } else {
                    Err(missing(toks, q, TokenType::DoubleRightBrackets))
                },
            }
        }
    }
}

/// Statements from `p` on, up to the end of the tokens or to an `end` or
/// `else` that closes a block, with the position where they stop.
pub open spec fn spec_list<'a>(toks: Seq<Token<'a>>, p: int) -> Result<(Seq<StatementModel<'a>>, int), ParseError>
    decreases toks.len() - p, 3nat,
{
    if p < 0 || p >= toks.len() {
        Ok((seq![], p))
    } else {
        match spec_statement(toks, p) {
            Err(err) => Err(err),
            Ok(StatementStep::Stop(q)) => Ok((seq![], q)),
            Ok(StatementStep::Parsed(s, q)) => if p < q <= toks.len() {
                match spec_list(toks, q) {
                    Err(err) => Err(err),
                    Ok((rest, r)) => Ok((seq![s] + rest, r)),
                }
            } else {
                Err(ParseError::UnexpectedEndOfInput)
            },
        }
    }
}

/// A whole token sequence: the statements before the end of the tokens or
/// before an unmatched `end` or `else`.
pub open spec fn spec_parse<'a>(toks: Seq<Token<'a>>) -> Result<Seq<StatementModel<'a>>, ParseError> {
    match spec_list(toks, 0) {
        Ok((stmts, _)) => Ok(stmts),
        Err(err) => Err(err),
    }
}

/// Ok when the token at `p` has kind `kind`, else the error for it.
pub open spec fn check<'a>(toks: Seq<Token<'a>>, p: int, kind: TokenType) -> Result<(), ParseError> {
    if at(toks, p, kind) {
        Ok(())
    } else {
        Err(missing(toks, p, kind))
    }
}

/// `acc` followed by the statements that `r` holds, or the error of `r`.
pub open spec fn prepend<'a>(acc: Seq<StatementModel<'a>>, r: Result<(Seq<StatementModel<'a>>, int), ParseError>) -> Result<(Seq<StatementModel<'a>>, int), ParseError> {
    match r {
        Ok((rest, q)) => Ok((acc + rest, q)),
        Err(e) => Err(e),
    }
}

/// Builds statements from tokens.
pub struct Parser<'t, 'a> {
    tokens: &'t Vec<Token<'a>>,
    /// Index of the current token.
    i: usize,
}

impl<'t, 'a> Parser<'t, 'a> {
    pub closed spec fn position(&self) -> int {
        self.i as int
    }

    pub closed spec fn tokens(&self) -> Seq<Token<'a>> {
        self.tokens@
    }

    pub closed spec fn wf(&self) -> bool {
        self.i <= self.tokens@.len()
    }

    /// Returns a parser at the first of `tokens`.
    pub fn new(tokens: &'t Vec<Token<'a>>) -> (r: Self)
        ensures
            r.wf(),
            r.tokens() == tokens@,
            r.position() == 0,
    {
        Parser { tokens, i: 0 }
    }

    /// Moves to the next token.
    fn next_token(&mut self)
        requires
            old(self).i < old(self).tokens@.len(),
        ensures
            final(self).tokens@ == old(self).tokens@,
            final(self).i == old(self).i + 1,
    {
        let n = self.tokens.len();
        assert(self.i < n);
        self.i = self.i + 1;
    }

    /// The kind of the current token, if any.
    fn current_type(&self) -> (r: Option<TokenType>)
        requires
            self.wf(),
        ensures
            self.i < self.tokens@.len() ==> r == Some(self.tokens@[self.i as int].token_type),
            self.i >= self.tokens@.len() ==> r is None,
    {
        if self.i < self.tokens.len() {
            Some(self.tokens[self.i].token_type)
        } else {
            None
        }
    }

    /// Checks that the current token has kind `token_type`.
    fn on(&self, token_type: TokenType) -> (r: Result<(), ParseError>)
        requires
            self.wf(),
        ensures
            r == check(self.tokens@, self.i as int, token_type),
    {
        match self.current_type() {
            None => Err(ParseError::UnexpectedEndOfInput),
            Some(found) => if found == token_type {
                Ok(())
            } else {
                Err(ParseError::UnexpectedToken { expected: token_type, found })
            },
        }
    }

    /// Checks that the current token has kind `token_type` and moves past it.
    fn expect(&mut self, token_type: TokenType) -> (r: Result<(), ParseError>)
        requires
            old(self).wf(),
        ensures
            final(self).wf(),
            final(self).tokens@ == old(self).tokens@,
            r == check(old(self).tokens@, old(self).i as int, token_type),
            r is Ok ==> final(self).i == old(self).i + 1,
    {
        self.on(token_type)?;
        self.next_token();
        Ok(())
    }

    /// `IDENT`
    fn parse_identifier(&mut self) -> (r: Result<Expression<'a>, ParseError>)
        requires
            old(self).wf(),
        ensures
            final(self).wf(),
            final(self).tokens@ == old(self).tokens@,
            match spec_identifier(old(self).tokens@, old(self).i as int) {
                Ok((e, q)) => r == Ok::<Expression<'a>, ParseError>(e) && final(self).i == q,
                Err(err) => r == Err::<Expression<'a>, ParseError>(err),
            },
    {
        self.on(TokenType::Identifier)?;
        let expression = Expression::Variable(VariableExpression { name: self.tokens[self.i].token_value });
        self.next_token();
        Ok(expression)
    }

    /// `STRING`
    fn parse_literal(&mut self) -> (r: Result<Expression<'a>, ParseError>)
        requires
            old(self).wf(),
        ensures
            final(self).wf(),
            final(self).tokens@ == old(self).tokens@,
            match spec_literal(old(self).tokens@, old(self).i as int) {
                Ok((e, q)) => r == Ok::<Expression<'a>, ParseError>(e) && final(self).i == q,
                Err(err) => r == Err::<Expression<'a>, ParseError>(err),
            },
    {
        self.on(TokenType::StringLiteral)?;
        let token = self.tokens[self.i];
        self.next_token();
        Ok(Expression::Literal(LiteralExpression { token }))
    }

    /// `call = IDENT { '.' IDENT } | STRING`
    fn parse_call(&mut self) -> (r: Result<Expression<'a>, ParseError>)
        requires
            old(self).wf(),
        ensures
            final(self).wf(),
            final(self).tokens@ == old(self).tokens@,
            match spec_call(old(self).tokens@, old(self).i as int) {
                Ok((e, q)) => r == Ok::<Expression<'a>, ParseError>(e) && final(self).i == q && old(self).i < q,
                Err(err) => r == Err::<Expression<'a>, ParseError>(err),
            },
    {
        match self.current_type() {
            None => {
                return Err(ParseError::UnexpectedEndOfInput);
            },
            Some(TokenType::Identifier) => {},
            Some(_) => {
                return self.parse_literal();
            },
        }
        let ghost toks = self.tokens@;
        let ghost p0 = self.i as int;
        let mut expression = self.parse_identifier()?;
        loop
            invariant
                self.wf(),
                self.tokens@ == old(self).tokens@,
                toks == self.tokens@,
                p0 == old(self).i,
                p0 < self.i,
                spec_call(toks, p0) == spec_call_rest(toks, expression, self.i as int),
            decreases self.tokens@.len() - self.i,
        {
            match self.current_type() {
                None => {
                    return Err(ParseError::UnexpectedEndOfInput);
                },
                Some(TokenType::Dot) => {},
                Some(_) => {
                    return Ok(expression);
                },
            }
            self.next_token();
            self.on(TokenType::Identifier)?;
            expression = Expression::Call(CallExpression { callee: Box::new(expression), name: self.tokens[self.i].token_value });
            self.next_token();
        }
    }

    /// `unary = [ '!' ] call`
    fn parse_unary(&mut self) -> (r: Result<Expression<'a>, ParseError>)
        requires
            old(self).wf(),
        ensures
            final(self).wf(),
            final(self).tokens@ == old(self).tokens@,
            match spec_unary(old(self).tokens@, old(self).i as int) {
                Ok((e, q)) => r == Ok::<Expression<'a>, ParseError>(e) && final(self).i == q && old(self).i < q,
                Err(err) => r == Err::<Expression<'a>, ParseError>(err),
            },
    {
        match self.current_type() {
            None => Err(ParseError::UnexpectedEndOfInput),
            Some(TokenType::Exclamation) => {
                self.next_token();
                let right = self.parse_call()?;
                Ok(Expression::Unary(UnaryExpression { operator: UnaryOperator::Not, right: Box::new(right) }))
            },
            Some(_) => self.parse_call(),
        }
    }

    /// The operator that a token kind stands for at `level`.
    fn infix_operator(token_type: TokenType, level: usize) -> (r: Option<BinaryOperator>)
        ensures
            r == infix_operator(token_type, level as nat),
    {
        if level == 0 && token_type == TokenType::DoublePipe {
            Some(BinaryOperator::Or)
        } else if level == 1 && token_type == TokenType::DoubleAmpersand {
            Some(BinaryOperator::And)
        } else if level == 2 && token_type == TokenType::DoubleEquals {
            Some(BinaryOperator::Equals)
        } else if level == 2 && token_type == TokenType::ExclamationEqual {
            Some(BinaryOperator::NotEquals)
        } else {
            None
        }
    }

    /// An operand at `level`: `or` at 0, `and` at 1, `equality` at 2,
    /// `unary` at 3; each binary level is left-associative.
    fn parse_level(&mut self, level: usize) -> (r: Result<Expression<'a>, ParseError>)
        requires
            old(self).wf(),
            level <= 3,
        ensures
            final(self).wf(),
            final(self).tokens@ == old(self).tokens@,
            match spec_level(old(self).tokens@, old(self).i as int, level as nat) {
                Ok((e, q)) => r == Ok::<Expression<'a>, ParseError>(e) && final(self).i == q && old(self).i < q,
                Err(err) => r == Err::<Expression<'a>, ParseError>(err),
            },
        decreases 3 - level,
    {
        if level >= 3 {
            return self.parse_unary();
        }
        let ghost toks = self.tokens@;
        let ghost p0 = self.i as int;
        let mut left = self.parse_level(level + 1)?;
        loop
            invariant
                self.wf(),
                self.tokens@ == old(self).tokens@,
                toks == self.tokens@,
                p0 == old(self).i,
                p0 < self.i,
                level < 3,
                spec_level(toks, p0, level as nat) == spec_level_rest(toks, left, self.i as int, level as nat),
            decreases self.tokens@.len() - self.i,
        {
            let operator = match self.current_type() {
                None => {
                    return Err(ParseError::UnexpectedEndOfInput);
                },
                Some(token_type) => match Self::infix_operator(token_type, level) {
                    None => {
                        return Ok(left);
                    },
                    Some(operator) => operator,
                },
            };
            self.next_token();
            let right = self.parse_level(level + 1)?;
            left = Expression::Binary(BinaryExpression { left: Box::new(left), operator, right: Box::new(right) });
        }
    }

    /// `expression = or`
    fn parse_expression(&mut self) -> (r: Result<Expression<'a>, ParseError>)
        requires
            old(self).wf(),
        ensures
            final(self).wf(),
            final(self).tokens@ == old(self).tokens@,
            match spec_expression(old(self).tokens@, old(self).i as int) {
                Ok((e, q)) => r == Ok::<Expression<'a>, ParseError>(e) && final(self).i == q && old(self).i < q,
                Err(err) => r == Err::<Expression<'a>, ParseError>(err),
            },
    {
        self.parse_level(0)
    }

    /// `for` after its `{{`, with the current token at the keyword.
    fn parse_for(&mut self) -> (r: Result<Statement<'a>, ParseError>)
        requires
            old(self).wf(),
        ensures
            final(self).wf(),
            final(self).tokens@ == old(self).tokens@,
            match spec_for(old(self).tokens@, old(self).i as int) {
                Ok((m, q)) => r matches Ok(s) && model_of(s) == m && final(self).i == q && old(self).i < q,
                Err(err) => r matches Err(e) && e == err,
            },
        decreases self.tokens@.len() - self.i, 1nat,
    {
        self.expect(TokenType::For)?;
        self.on(TokenType::Identifier)?;
        let instance_identifier = self.tokens[self.i].token_value;
        self.next_token();
        self.expect(TokenType::In)?;
        self.on(TokenType::Identifier)?;
        let array_variable = self.parse_call()?;
        self.expect(TokenType::DoubleRightBrackets)?;
        let statements = self.parse()?;
        self.expect(TokenType::End)?;
        self.expect(TokenType::DoubleRightBrackets)?;
        Ok(Statement::For(ForStatement { instance_identifier, array_variable, statements }))
    }

    /// `if` after its `{{`, with the current token at the keyword.
    fn parse_if(&mut self) -> (r: Result<Statement<'a>, ParseError>)
        requires
            old(self).wf(),
        ensures
            final(self).wf(),
            final(self).tokens@ == old(self).tokens@,
            match spec_if(old(self).tokens@, old(self).i as int) {
                Ok((m, q)) => r matches Ok(s) && model_of(s) == m && final(self).i == q && old(self).i < q,
                Err(err) => r matches Err(e) && e == err,
            },
        decreases self.tokens@.len() - self.i, 1nat,
    {
        self.expect(TokenType::If)?;
        let condition = self.parse_expression()?;
        self.expect(TokenType::DoubleRightBrackets)?;
        let if_statements = self.parse()?;
        let mut else_statements: Vec<Statement<'a>> = Vec::new();
        match self.current_type() {
            None => {
                return Err(ParseError::UnexpectedEndOfInput);
            },
            Some(TokenType::Else) => {
                self.next_token();
                self.expect(TokenType::DoubleRightBrackets)?;
                else_statements = self.parse()?;
            },
            Some(_) => {},
        }
        self.expect(TokenType::End)?;
        self.expect(TokenType::DoubleRightBrackets)?;
        Ok(Statement::If(IfStatement { condition, if_statements, else_statements }))
    }

    /// One statement at the current token; `None` at an `end` or `else`
    /// that closes a block, left as the current token.
    fn parse_statement(&mut self) -> (r: Result<Option<Statement<'a>>, ParseError>)
        requires
            old(self).wf(),
        ensures
            final(self).wf(),
            final(self).tokens@ == old(self).tokens@,
            match spec_statement(old(self).tokens@, old(self).i as int) {
                Ok(StatementStep::Parsed(m, q)) => r matches Ok(Some(s)) && model_of(s) == m && final(self).i == q && old(self).i < q,
                Ok(StatementStep::Stop(q)) => r matches Ok(None) && final(self).i == q && old(self).i < q,
                Err(err) => r matches Err(e) && e == err,
            },
        decreases self.tokens@.len() - self.i, 2nat,
    {
        match self.current_type() {
            None => Err(ParseError::UnexpectedEndOfInput),
            Some(TokenType::TemplateLiteral) => {
                let value = self.tokens[self.i].token_value;
                self.next_token();
                Ok(Some(Statement::Expression(Expression::TemplateLiteral(TemplateLiteralExpression { value }))))
            },
            Some(TokenType::DoubleLeftBrackets) => {
                self.next_token();
                match self.current_type() {
                    None => Err(ParseError::UnexpectedEndOfInput),
                    Some(TokenType::For) => Ok(Some(self.parse_for()?)),
                    Some(TokenType::If) => Ok(Some(self.parse_if()?)),
                    Some(TokenType::End) | Some(TokenType::Else) => Ok(None),
                    Some(_) => {
                        let expression = self.parse_expression()?;
                        self.expect(TokenType::DoubleRightBrackets)?;
                        Ok(Some(Statement::Expression(expression)))
                    },
                }
            },
            Some(found) => Err(ParseError::UnexpectedToken { expected: TokenType::DoubleLeftBrackets, found }),
        }
    }

    /// Parses statements from the current token up to the end of the tokens
    /// or up to an `end` or `else` that closes a block, which is left as the
    /// current token.
    pub fn parse(&mut self) -> (r: Result<Vec<Statement<'a>>, ParseError>)
        requires
            old(self).wf(),
        ensures
            final(self).wf(),
            final(self).tokens() == old(self).tokens(),
            match spec_list(old(self).tokens(), old(self).position()) {
                Ok((ms, q)) => r matches Ok(v) && models_of(v@) == ms && final(self).position() == q && old(self).position() <= q,
                Err(err) => r matches Err(e) && e == err,
            },
        decreases self.tokens().len() - self.position(), 3nat,
    {
        let ghost toks = self.tokens@;
        let ghost p0 = self.i as int;
        let mut statements: Vec<Statement<'a>> = Vec::new();
        proof {
            if let Ok((ms, q)) = spec_list(toks, p0) {
                assert(seq![] + ms =~= ms);
            }
        }
        loop
            invariant
                self.wf(),
                self.tokens@ == old(self).tokens@,
                toks == self.tokens@,
                p0 == old(self).i,
                p0 <= self.i,
                spec_list(toks, p0) == prepend(models_of(statements@), spec_list(toks, self.i as int)),
            decreases self.tokens@.len() - self.i,
        {
            if self.i >= self.tokens.len() {
                assert(models_of(statements@) + seq![] =~= models_of(statements@));
                return Ok(statements);
            }
            let ghost before = statements@;
            match self.parse_statement()? {
                Some(statement) => {
                    statements.push(statement);
                    proof {
                        assert(statements@.drop_last() =~= before);
                        let m = model_of(statement);
                        if let Ok((rest, r)) = spec_list(toks, self.i as int) {
                            assert(models_of(before) + (seq![m] + rest) =~= models_of(before).push(m) + rest);
                        }
                    }
                },
                None => {
                    assert(models_of(statements@) + seq![] =~= models_of(statements@));
                    return Ok(statements);
                },
            }
        }
    }
}

} // verus!

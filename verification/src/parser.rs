//! Parsing: tokens to a syntax tree, by recursive descent with precedence
//! climbing for the binary operators.

use vstd::prelude::*;
use vstd::string::*;
use crate::ast::{BinOp, Expression, FunctionDeclaration, Program, ProgramView, Statement, UnOp};
use crate::ast::FunctionDeclarationView;
use crate::lexer::{token_text, token_views, Token, TokenView};

verus! {

/// Why parsing failed.
#[derive(Debug)]
pub enum ParseError {
    /// A token other than the one the grammar asks for, both described in words.
    UnexpectedToken { expected: String, found: String },
    /// The tokens ended where the grammar asks for more.
    UnexpectedEOF,
}

/// The mathematical value of a [`ParseError`].
pub enum ParseErrorView {
    UnexpectedToken { expected: Seq<char>, found: Seq<char> },
    UnexpectedEOF,
}

impl View for ParseError {
    type V = ParseErrorView;

    open spec fn view(&self) -> ParseErrorView {
        match *self {
            ParseError::UnexpectedToken { expected, found } => ParseErrorView::UnexpectedToken {
                expected: expected@,
                found: found@,
            },
            ParseError::UnexpectedEOF => ParseErrorView::UnexpectedEOF,
        }
    }
}

/// How tightly a binary operator binds, from loosest to tightest. `Lowest` is the
/// level of a token that is no binary operator.
#[derive(Debug, Clone, Copy, PartialEq, Eq, PartialOrd, Ord)]
pub enum Precedence {
    Lowest,
    LogicalOr,
    LogicalAnd,
    Equality,
    Compartors,
    BitwiseOr,
    BitwiseXor,
    BitwiseAnd,
    BitwiseShift,
    Term,
    Factor,
}

impl Precedence {
    /// The level as a number: a tighter level has a larger number.
    pub open spec fn level(self) -> int {
        match self {
            Precedence::Lowest => 0,
            Precedence::LogicalOr => 1,
            Precedence::LogicalAnd => 2,
            Precedence::Equality => 3,
            Precedence::Compartors => 4,
            Precedence::BitwiseOr => 5,
            Precedence::BitwiseXor => 6,
            Precedence::BitwiseAnd => 7,
            Precedence::BitwiseShift => 8,
            Precedence::Term => 9,
            Precedence::Factor => 10,
        }
    }

    /// Returns the level as a number.
    pub fn rank(&self) -> (r: u8)
        ensures
            r == self.level(),
    {
        match self {
            Precedence::Lowest => 0,
            Precedence::LogicalOr => 1,
            Precedence::LogicalAnd => 2,
            Precedence::Equality => 3,
            Precedence::Compartors => 4,
            Precedence::BitwiseOr => 5,
            Precedence::BitwiseXor => 6,
            Precedence::BitwiseAnd => 7,
            Precedence::BitwiseShift => 8,
            Precedence::Term => 9,
            Precedence::Factor => 10,
        }
    }
}

/// The binary operator that a token writes, if it writes one. A minus sign
/// between two operands is a subtraction.
pub open spec fn binary_operator(token: TokenView) -> Option<BinOp> {
    match token {
        TokenView::Addition => Some(BinOp::Add),
        TokenView::Negation => Some(BinOp::Subtract),
        TokenView::Division => Some(BinOp::Divide),
        TokenView::Multiplication => Some(BinOp::Multiply),
        TokenView::Remainder => Some(BinOp::Remainder),
        TokenView::BitwiseOr => Some(BinOp::BitwiseOr),
        TokenView::BitwiseAnd => Some(BinOp::BitwiseAnd),
        TokenView::BitwiseXor => Some(BinOp::BitwiseXor),
        TokenView::LogicalAnd => Some(BinOp::LogicalAnd),
        TokenView::LogicalOr => Some(BinOp::LogicalOr),
        TokenView::LeftShift => Some(BinOp::LeftShift),
        TokenView::RightShift => Some(BinOp::RightShift),
        TokenView::Equal => Some(BinOp::Equal),
        TokenView::NotEqual => Some(BinOp::NotEqual),
        TokenView::LessThan => Some(BinOp::LessThan),
        TokenView::LessThanEqual => Some(BinOp::LessThanEqual),
        TokenView::GreaterThan => Some(BinOp::GreaterThan),
        TokenView::GreaterThanEqual => Some(BinOp::GreaterThanEqual),
        _ => None,
    }
}

/// The precedence of a token as a binary operator.
pub open spec fn precedence_of(token: TokenView) -> Precedence {
    match token {
        TokenView::LogicalOr => Precedence::LogicalOr,
        TokenView::LogicalAnd => Precedence::LogicalAnd,
        TokenView::Equal => Precedence::Equality,
        TokenView::NotEqual => Precedence::Equality,
        TokenView::LessThan => Precedence::Compartors,
        TokenView::LessThanEqual => Precedence::Compartors,
        TokenView::GreaterThan => Precedence::Compartors,
        TokenView::GreaterThanEqual => Precedence::Compartors,
        TokenView::BitwiseOr => Precedence::BitwiseOr,
        TokenView::BitwiseXor => Precedence::BitwiseXor,
        TokenView::BitwiseAnd => Precedence::BitwiseAnd,
        TokenView::LeftShift => Precedence::BitwiseShift,
        TokenView::RightShift => Precedence::BitwiseShift,
        TokenView::Addition => Precedence::Term,
        TokenView::Negation => Precedence::Term,
        TokenView::Multiplication => Precedence::Factor,
        TokenView::Division => Precedence::Factor,
        TokenView::Remainder => Precedence::Factor,
        _ => Precedence::Lowest,
    }
}

impl Token {
    /// Returns the precedence of the token as a binary operator.
    pub fn get_precedence(&self) -> (p: Precedence)
        ensures
            p == precedence_of(self@),
    {
        match self {
            Token::LogicalOr => Precedence::LogicalOr,
            Token::LogicalAnd => Precedence::LogicalAnd,
            Token::Equal => Precedence::Equality,
            Token::NotEqual => Precedence::Equality,
            Token::LessThan => Precedence::Compartors,
            Token::LessThanEqual => Precedence::Compartors,
            Token::GreaterThan => Precedence::Compartors,
            Token::GreaterThanEqual => Precedence::Compartors,
            Token::BitwiseOr => Precedence::BitwiseOr,
            Token::BitwiseXor => Precedence::BitwiseXor,
            Token::BitwiseAnd => Precedence::BitwiseAnd,
            Token::LeftShift | Token::RightShift => Precedence::BitwiseShift,
            Token::Addition | Token::Negation => Precedence::Term,
            Token::Multiplication | Token::Division | Token::Remainder => Precedence::Factor,
            _ => Precedence::Lowest,
        }
    }
}

/// What a parsing step gives: a value or an error, and the tokens that are left.
pub struct Parsed<T> {
    pub result: Result<T, ParseErrorView>,
    pub rest: Seq<TokenView>,
}

/// The error for a token `found` where `expected` describes what should stand.
pub open spec fn unexpected(expected: Seq<char>, found: TokenView) -> ParseErrorView {
    ParseErrorView::UnexpectedToken { expected, found: token_text(found) }
}

/// Taking one token, which should be `expected`. The token is taken whether it
/// is the expected one or not.
pub open spec fn expect_spec(input: Seq<TokenView>, expected: TokenView) -> Parsed<()> {
    if input.len() == 0 {
        Parsed { result: Err(ParseErrorView::UnexpectedEOF), rest: input }
    } else if input[0] == expected {
        Parsed { result: Ok(()), rest: input.skip(1) }
    } else {
        Parsed { result: Err(unexpected(token_text(expected), input[0])), rest: input.skip(1) }
    }
}

/// A factor: a literal, a prefix operator applied to a factor, or an expression
/// in parentheses. After the expression in parentheses one more token is taken,
/// and it is not held against the input if that token is no closing parenthesis.
pub open spec fn parse_factor_spec(input: Seq<TokenView>) -> Parsed<Expression>
    decreases input.len(), 0nat,
{
    if input.len() == 0 {
        Parsed { result: Err(ParseErrorView::UnexpectedEOF), rest: input }
    } else {
        let rest = input.skip(1);
        match input[0] {
            TokenView::OpenParen => {
                let inner = parse_expression_spec(rest, Precedence::Lowest);
                if inner.result is Ok {
                    Parsed { result: inner.result, rest: expect_spec(inner.rest, TokenView::CloseParen).rest }
                } else {
                    inner
                }
            },
            TokenView::IntegerLiteral(value) => Parsed {
                result: Ok(Expression::Constant(value)),
                rest,
            },
            TokenView::Negation => prefixed_factor(UnOp::Negation, parse_factor_spec(rest)),
            TokenView::BitwiseComplement => prefixed_factor(
                UnOp::BitwiseComplement,
                parse_factor_spec(rest),
            ),
            TokenView::LogicalNegation => prefixed_factor(
                UnOp::LogicalNegation,
                parse_factor_spec(rest),
            ),
            other => Parsed { result: Err(unexpected("Factor parsing error"@, other)), rest },
        }
    }
}

/// A prefix operator put in front of a parsed factor.
pub open spec fn prefixed_factor(op: UnOp, operand: Parsed<Expression>) -> Parsed<Expression> {
    match operand.result {
        Ok(e) => Parsed { result: Ok(Expression::UnaryOp((op, Box::new(e)))), rest: operand.rest },
        Err(_) => operand,
    }
}

/// An expression whose binary operators all bind tighter than `min`: a factor,
/// extended by operators and right operands as far as possible.
pub open spec fn parse_expression_spec(input: Seq<TokenView>, min: Precedence) -> Parsed<Expression>
    decreases input.len(), 2nat,
{
    let first = parse_factor_spec(input);
    match first.result {
        Ok(left) => if first.rest.len() <= input.len() {
            extend_spec(first.rest, min, left)
        } else {
            first
        },
        Err(_) => first,
    }
}

/// The expression `left` extended by the binary operators in `input` that bind
/// tighter than `min`, each with a right operand whose own operators bind tighter
/// than it does. Operators of one level so group to the left.
pub open spec fn extend_spec(input: Seq<TokenView>, min: Precedence, left: Expression) -> Parsed<
    Expression,
>
    decreases input.len(), 1nat,
{
    if input.len() == 0 {
        Parsed { result: Ok(left), rest: input }
    } else {
        match binary_operator(input[0]) {
            Some(op) => {
                let level = precedence_of(input[0]);
                if level.level() <= min.level() {
                    Parsed { result: Ok(left), rest: input }
                } else {
                    let right = parse_expression_spec(input.skip(1), level);
                    match right.result {
                        Ok(operand) => if right.rest.len() < input.len() {
                            extend_spec(
                                right.rest,
                                min,
                                Expression::BinaryOp(op, Box::new(left), Box::new(operand)),
                            )
                        } else {
                            right
                        },
                        Err(_) => right,
                    }
                }
            },
            None => Parsed { result: Ok(left), rest: input },
        }
    }
}

/// A factor gives back no more tokens than it was given, and fewer if it is
/// parsed: at least one for each node of the expression.
pub proof fn lemma_parse_consumes_factor(input: Seq<TokenView>)
    ensures
        parse_factor_spec(input).rest.len() <= input.len(),
        parse_factor_spec(input).result is Ok ==> parse_factor_spec(input).rest.len() < input.len(),
        parse_factor_spec(input).result matches Ok(e) ==> e.size() + parse_factor_spec(
            input,
        ).rest.len() <= input.len(),
    decreases input.len(), 0nat,
{
    if input.len() > 0 {
        let rest = input.skip(1);
        match input[0] {
            TokenView::OpenParen => {
                lemma_parse_consumes_expression(rest, Precedence::Lowest);
            },
            TokenView::Negation | TokenView::BitwiseComplement | TokenView::LogicalNegation => {
                lemma_parse_consumes_factor(rest);
            },
            _ => {},
        }
    }
}

/// An expression gives back no more tokens than it was given, and fewer if it is
/// parsed: at least one for each node of the expression.
pub proof fn lemma_parse_consumes_expression(input: Seq<TokenView>, min: Precedence)
    ensures
        parse_expression_spec(input, min).rest.len() <= input.len(),
        parse_expression_spec(input, min).result is Ok ==> parse_expression_spec(
            input,
            min,
        ).rest.len() < input.len(),
        parse_expression_spec(input, min).result matches Ok(e) ==> e.size()
            + parse_expression_spec(input, min).rest.len() <= input.len(),
    decreases input.len(), 2nat,
{
    lemma_parse_consumes_factor(input);
    let first = parse_factor_spec(input);
    if first.result is Ok {
        lemma_parse_consumes_extend(first.rest, min, first.result->Ok_0);
    }
}

/// Extending an expression gives back no more tokens than it was given, and
/// takes at least one for each node that it adds.
pub proof fn lemma_parse_consumes_extend(input: Seq<TokenView>, min: Precedence, left: Expression)
    ensures
        extend_spec(input, min, left).rest.len() <= input.len(),
        extend_spec(input, min, left).result matches Ok(e) ==> e.size() + extend_spec(
            input,
            min,
            left,
        ).rest.len() <= left.size() + input.len(),
    decreases input.len(), 1nat,
{
    if input.len() > 0 {
        match binary_operator(input[0]) {
            Some(op) => {
                let level = precedence_of(input[0]);
                if level.level() > min.level() {
                    lemma_parse_consumes_expression(input.skip(1), level);
                    let right = parse_expression_spec(input.skip(1), level);
                    if right.result is Ok {
                        lemma_parse_consumes_extend(
                            right.rest,
                            min,
                            Expression::BinaryOp(op, Box::new(left), Box::new(right.result->Ok_0)),
                        );
                    }
                }
            },
            None => {},
        }
    }
}

/// A `return` statement: the keyword, an expression, a semicolon.
pub open spec fn parse_statement_spec(input: Seq<TokenView>) -> Parsed<Statement> {
    let keyword = expect_spec(input, TokenView::ReturnKeyword);
    match keyword.result {
        Err(e) => Parsed { result: Err(e), rest: keyword.rest },
        Ok(_) => {
            let value = parse_expression_spec(keyword.rest, Precedence::Lowest);
            match value.result {
                Err(e) => Parsed { result: Err(e), rest: value.rest },
                Ok(e) => {
                    let end = expect_spec(value.rest, TokenView::Semicolon);
                    match end.result {
                        Err(e) => Parsed { result: Err(e), rest: end.rest },
                        Ok(_) => Parsed { result: Ok(Statement::Return(e)), rest: end.rest },
                    }
                },
            }
        },
    }
}

/// Taking one token, which should be an identifier, and giving its name.
pub open spec fn expect_identifier_spec(input: Seq<TokenView>) -> Parsed<Seq<char>> {
    if input.len() == 0 {
        Parsed { result: Err(ParseErrorView::UnexpectedEOF), rest: input }
    } else {
        match input[0] {
            TokenView::Identifier(name) => Parsed { result: Ok(name), rest: input.skip(1) },
            other => Parsed { result: Err(unexpected("Identifier"@, other)), rest: input.skip(1) },
        }
    }
}

/// Taking the tokens of `expected` one after the other, up to the first that is
/// not found.
pub open spec fn expect_all_spec(input: Seq<TokenView>, expected: Seq<TokenView>) -> Parsed<()>
    decreases expected.len(),
{
    if expected.len() == 0 {
        Parsed { result: Ok(()), rest: input }
    } else {
        let first = expect_spec(input, expected[0]);
        match first.result {
            Err(_) => first,
            Ok(_) => expect_all_spec(first.rest, expected.skip(1)),
        }
    }
}

/// A function: `int`, a name, `(`, `)`, `{`, a statement, `}`.
pub open spec fn parse_function_spec(input: Seq<TokenView>) -> Parsed<FunctionDeclarationView> {
    let keyword = expect_spec(input, TokenView::IntKeyword);
    match keyword.result {
        Err(e) => Parsed { result: Err(e), rest: keyword.rest },
        Ok(_) => {
            let name = expect_identifier_spec(keyword.rest);
            match name.result {
                Err(e) => Parsed { result: Err(e), rest: name.rest },
                Ok(n) => {
                    let open = expect_all_spec(
                        name.rest,
                        seq![TokenView::OpenParen, TokenView::CloseParen, TokenView::OpenBrace],
                    );
                    match open.result {
                        Err(e) => Parsed { result: Err(e), rest: open.rest },
                        Ok(_) => {
                            let body = parse_statement_spec(open.rest);
                            match body.result {
                                Err(e) => Parsed { result: Err(e), rest: body.rest },
                                Ok(b) => {
                                    let close = expect_spec(body.rest, TokenView::CloseBrace);
                                    match close.result {
                                        Err(e) => Parsed { result: Err(e), rest: close.rest },
                                        Ok(_) => Parsed {
                                            result: Ok(FunctionDeclarationView { name: n, body: b }),
                                            rest: close.rest,
                                        },
                                    }
                                },
                            }
                        },
                    }
                },
            }
        },
    }
}

/// A program: one function, and no token after it.
pub open spec fn parse_program_spec(input: Seq<TokenView>) -> Parsed<ProgramView> {
    let function = parse_function_spec(input);
    match function.result {
        Err(e) => Parsed { result: Err(e), rest: function.rest },
        Ok(f) => if function.rest.len() > 0 {
            Parsed { result: Err(unexpected("End of File"@, function.rest[0])), rest: function.rest }
        } else {
            Parsed { result: Ok(ProgramView { function: f }), rest: function.rest }
        },
    }
}

/// A parsed program has no more nodes in its expression than there were tokens.
pub proof fn lemma_program_size(input: Seq<TokenView>)
    ensures
        parse_program_spec(input).result matches Ok(program)
            ==> program.function.body.expression().size() <= input.len(),
{
    let keyword = expect_spec(input, TokenView::IntKeyword);
    let name = expect_identifier_spec(keyword.rest);
    let opening = seq![TokenView::OpenParen, TokenView::CloseParen, TokenView::OpenBrace];
    let open = expect_all_spec(name.rest, opening);
    lemma_expect_all_consumes(name.rest, opening);
    let after_return = expect_spec(open.rest, TokenView::ReturnKeyword);
    lemma_parse_consumes_expression(after_return.rest, Precedence::Lowest);
}

/// Taking expected tokens gives back no more tokens than there were.
pub proof fn lemma_expect_all_consumes(input: Seq<TokenView>, expected: Seq<TokenView>)
    ensures
        expect_all_spec(input, expected).rest.len() <= input.len(),
    decreases expected.len(),
{
    if expected.len() > 0 {
        lemma_expect_all_consumes(expect_spec(input, expected[0]).rest, expected.skip(1));
    }
}

/// Whether a parser's answer is the one that the grammar gives.
pub open spec fn agrees<T>(result: Result<T, ParseError>, expected: Result<T, ParseErrorView>) -> bool {
    match result {
        Ok(value) => expected == Ok::<T, ParseErrorView>(value),
        Err(e) => expected == Err::<T, ParseErrorView>(e@),
    }
}

/// A parser over a sequence of tokens, which it takes from the front.
pub struct Parser {
    tokens: Vec<Token>,
    pos: usize,
}

impl View for Parser {
    type V = Seq<TokenView>;

    /// The tokens that the parser has not taken yet.
    closed spec fn view(&self) -> Seq<TokenView> {
        token_views(self.tokens@).skip(self.pos as int)
    }
}

/// The binary operator that a token writes, if it writes one.
fn binary_operator_of(token: &Token) -> (op: Option<BinOp>)
    ensures
        op == binary_operator(token@),
{
    match token {
        Token::Addition => Some(BinOp::Add),
        Token::Negation => Some(BinOp::Subtract),
        Token::Division => Some(BinOp::Divide),
        Token::Multiplication => Some(BinOp::Multiply),
        Token::Remainder => Some(BinOp::Remainder),
        Token::BitwiseOr => Some(BinOp::BitwiseOr),
        Token::BitwiseAnd => Some(BinOp::BitwiseAnd),
        Token::BitwiseXor => Some(BinOp::BitwiseXor),
        Token::LogicalAnd => Some(BinOp::LogicalAnd),
        Token::LogicalOr => Some(BinOp::LogicalOr),
        Token::LeftShift => Some(BinOp::LeftShift),
        Token::RightShift => Some(BinOp::RightShift),
        Token::Equal => Some(BinOp::Equal),
        Token::NotEqual => Some(BinOp::NotEqual),
        Token::LessThan => Some(BinOp::LessThan),
        Token::LessThanEqual => Some(BinOp::LessThanEqual),
        Token::GreaterThan => Some(BinOp::GreaterThan),
        Token::GreaterThanEqual => Some(BinOp::GreaterThanEqual),
        _ => None,
    }
}

impl Parser {
    #[verifier::type_invariant]
    spec fn well_formed(&self) -> bool {
        self.pos <= self.tokens.len()
    }

    /// A parser that has all of `tokens` before it.
    pub fn new(tokens: Vec<Token>) -> (parser: Parser)
        ensures
            parser@ == token_views(tokens@),
    {
        Parser { tokens, pos: 0 }
    }

    /// What holds of the tokens left when the parser is not at the end.
    proof fn lemma_front(&self)
        requires
            self.pos < self.tokens.len(),
        ensures
            self@.len() == self.tokens.len() - self.pos,
            self@[0] == self.tokens[self.pos as int]@,
            self@.skip(1) == token_views(self.tokens@).skip(self.pos + 1),
    {
        assert(self@.skip(1) =~= token_views(self.tokens@).skip(self.pos + 1));
    }

    /// Takes the next token, which should be `expected_token`. The token is taken
    /// whether it is the expected one or not.
    pub fn expect(&mut self, expected_token: Token) -> (result: Result<(), ParseError>)
        ensures
            agrees(result, expect_spec(old(self)@, expected_token@).result),
            final(self)@ == expect_spec(old(self)@, expected_token@).rest,
    {
        proof {
            use_type_invariant(&*self);
        }
        if self.pos >= self.tokens.len() {
            return Err(ParseError::UnexpectedEOF);
        }
        proof {
            self.lemma_front();
        }
        let token = &self.tokens[self.pos];
        let result = if *token == expected_token {
            Ok(())
        } else {
            Err(
                ParseError::UnexpectedToken {
                    expected: expected_token.describe(),
                    found: token.describe(),
                },
            )
        };
        self.pos = self.pos + 1;
        result
    }

    /// Parses a program: one function, and no token after it.
    ///
    /// The answer is an error exactly where the grammar gives one, and then it is
    /// that error.
    pub fn parse_program(&mut self) -> (result: Result<Program, ParseError>)
        ensures
            match result {
                Ok(program) => parse_program_spec(old(self)@).result == Ok::<
                    ProgramView,
                    ParseErrorView,
                >(program@),
                Err(e) => parse_program_spec(old(self)@).result == Err::<
                    ProgramView,
                    ParseErrorView,
                >(e@),
            },
            final(self)@ == parse_program_spec(old(self)@).rest,
    {
        let function = match self.parse_function() {
            Ok(f) => f,
            Err(e) => {
                return Err(e);
            },
        };
        proof {
            use_type_invariant(&*self);
        }
        if self.pos < self.tokens.len() {
            proof {
                self.lemma_front();
            }
            return Err(
                ParseError::UnexpectedToken {
                    expected: String::from_str("End of File"),
                    found: self.tokens[self.pos].describe(),
                },
            );
        }
        Ok(Program { function })
    }

    /// Parses a function: `int`, a name, `(`, `)`, `{`, a statement, `}`.
    pub fn parse_function(&mut self) -> (result: Result<FunctionDeclaration, ParseError>)
        ensures
            match result {
                Ok(function) => parse_function_spec(old(self)@).result == Ok::<
                    FunctionDeclarationView,
                    ParseErrorView,
                >(function@),
                Err(e) => parse_function_spec(old(self)@).result == Err::<
                    FunctionDeclarationView,
                    ParseErrorView,
                >(e@),
            },
            final(self)@ == parse_function_spec(old(self)@).rest,
    {
        match self.expect(Token::IntKeyword) {
            Ok(_) => {},
            Err(e) => {
                return Err(e);
            },
        }
        proof {
            use_type_invariant(&*self);
        }
        if self.pos >= self.tokens.len() {
            return Err(ParseError::UnexpectedEOF);
        }
        proof {
            self.lemma_front();
        }
        let name = match &self.tokens[self.pos] {
            Token::Identifier(name) => {
                let name = name.clone();
                self.pos = self.pos + 1;
                name
            },
            other => {
                let found = other.describe();
                self.pos = self.pos + 1;
                return Err(
                    ParseError::UnexpectedToken { expected: String::from_str("Identifier"), found },
                );
            },
        };
        let ghost after_name = self@;
        let ghost opening = seq![TokenView::OpenParen, TokenView::CloseParen, TokenView::OpenBrace];
        proof {
            reveal_with_fuel(expect_all_spec, 4);
            assert(opening.skip(1) =~= seq![TokenView::CloseParen, TokenView::OpenBrace]);
            assert(opening.skip(1).skip(1) =~= seq![TokenView::OpenBrace]);
            assert(opening.skip(1).skip(1).skip(1) =~= Seq::<TokenView>::empty());
        }
        match self.expect(Token::OpenParen) {
            Ok(_) => {},
            Err(e) => {
                return Err(e);
            },
        }
        match self.expect(Token::CloseParen) {
            Ok(_) => {},
            Err(e) => {
                return Err(e);
            },
        }
        match self.expect(Token::OpenBrace) {
            Ok(_) => {},
            Err(e) => {
                return Err(e);
            },
        }
        let body = match self.parse_statement() {
            Ok(b) => b,
            Err(e) => {
                return Err(e);
            },
        };
        match self.expect(Token::CloseBrace) {
            Ok(_) => {},
            Err(e) => {
                return Err(e);
            },
        }
        Ok(FunctionDeclaration { name, body })
    }

    /// Parses a `return` statement: the keyword, an expression, a semicolon.
    pub fn parse_statement(&mut self) -> (result: Result<Statement, ParseError>)
        ensures
            agrees(result, parse_statement_spec(old(self)@).result),
            final(self)@ == parse_statement_spec(old(self)@).rest,
    {
        match self.expect(Token::ReturnKeyword) {
            Ok(_) => {},
            Err(e) => {
                return Err(e);
            },
        }
        let expr = match self.parse_expression(&Precedence::Lowest) {
            Ok(e) => e,
            Err(e) => {
                return Err(e);
            },
        };
        match self.expect(Token::Semicolon) {
            Ok(_) => {},
            Err(e) => {
                return Err(e);
            },
        }
        Ok(Statement::Return(expr))
    }

    /// Parses an expression whose binary operators all bind tighter than
    /// `min_prec`.
    pub fn parse_expression(&mut self, min_prec: &Precedence) -> (result: Result<
        Expression,
        ParseError,
    >)
        ensures
            agrees(result, parse_expression_spec(old(self)@, *min_prec).result),
            final(self)@ == parse_expression_spec(old(self)@, *min_prec).rest,
        decreases old(self)@.len(), 2nat,
    {
        let ghost start = self@;
        proof {
            lemma_parse_consumes_factor(start);
        }
        let mut left = match self.parse_factor() {
            Ok(e) => e,
            Err(e) => {
                return Err(e);
            },
        };
        loop
            invariant
                start == old(self)@,
                parse_expression_spec(start, *min_prec) == extend_spec(self@, *min_prec, left),
                self@.len() < start.len(),
            decreases self@.len(),
        {
            proof {
                use_type_invariant(&*self);
            }
            if self.pos >= self.tokens.len() {
                return Ok(left);
            }
            proof {
                self.lemma_front();
            }
            let ghost input = self@;
            let token = &self.tokens[self.pos];
            let op = match binary_operator_of(token) {
                Some(op) => op,
                None => {
                    return Ok(left);
                },
            };
            let prec = token.get_precedence();
            if prec.rank() <= min_prec.rank() {
                return Ok(left);
            }
            self.pos = self.pos + 1;
            proof {
                lemma_parse_consumes_expression(input.skip(1), prec);
            }
            let right = match self.parse_expression(&prec) {
                Ok(e) => e,
                Err(e) => {
                    return Err(e);
                },
            };
            left = Expression::BinaryOp(op, Box::new(left), Box::new(right));
        }
    }

    /// Parses a factor: a literal, a prefix operator applied to a factor, or an
    /// expression in parentheses.
    pub fn parse_factor(&mut self) -> (result: Result<Expression, ParseError>)
        ensures
            agrees(result, parse_factor_spec(old(self)@).result),
            final(self)@ == parse_factor_spec(old(self)@).rest,
        decreases old(self)@.len(), 0nat,
    {
        proof {
            use_type_invariant(&*self);
        }
        if self.pos >= self.tokens.len() {
            return Err(ParseError::UnexpectedEOF);
        }
        proof {
            self.lemma_front();
        }
        let at = self.pos;
        self.pos = self.pos + 1;
        match &self.tokens[at] {
            Token::OpenParen => {
                match self.parse_expression(&Precedence::Lowest) {
                    Ok(e) => {
                        let _ = self.expect(Token::CloseParen);
                        Ok(e)
                    },
                    Err(e) => Err(e),
                }
            },
            Token::IntegerLiteral(val) => Ok(Expression::Constant(*val)),
            Token::Negation => match self.parse_factor() {
                Ok(e) => Ok(Expression::UnaryOp((UnOp::Negation, Box::new(e)))),
                Err(e) => Err(e),
            },
            Token::BitwiseComplement => match self.parse_factor() {
                Ok(e) => Ok(Expression::UnaryOp((UnOp::BitwiseComplement, Box::new(e)))),
                Err(e) => Err(e),
            },
            Token::LogicalNegation => match self.parse_factor() {
                Ok(e) => Ok(Expression::UnaryOp((UnOp::LogicalNegation, Box::new(e)))),
                Err(e) => Err(e),
            },
            other => Err(
                ParseError::UnexpectedToken {
                    expected: String::from_str("Factor parsing error"),
                    found: other.describe(),
                },
            ),
        }
    }
}

} // verus!

use vstd::prelude::*;
use crate::ast::{
    params_model, BlockStatement, CallExpression, ExprModel, Expression, ExpressionStatement,
    FunctionLiteral, IdentModel, Identifier, IfExpression, InfixExpression, IntegerLiteral,
    LetStatement, PrefixExpression, Program, ReturnStatement, Statement, StmtModel,
};
use crate::grammar::{
    digits_value, ident_of, is_binary, parse_args, parse_args_rest, parse_block,
    parse_block_rest, parse_expr, parse_func, parse_grouped, parse_if, parse_infix,
    parse_infix_loop, parse_params, parse_params_rest, parse_prefix, parse_source, parse_stmt,
    parse_stmts, prec_rank, precedence_of, rem, ParseError, Precedence,
};
use crate::lexer::{is_digit, kind_at, lemma_eof_from, lemma_int_token_digits, lemma_pos_after, pos_after, token_at, Lexer};
use crate::token::{Token, TokenType};

verus! {

// ---------------------------------------------------------------------------------------------
// The parser.
// ---------------------------------------------------------------------------------------------

/// The result of a parse step as a model: the tree's view and the index where it ended.
pub open spec fn outcome<T: View>(r: Result<T, ParseError>, end: nat) -> Result<(T::V, nat), ParseError> {
    match r {
        Ok(v) => Ok((v@, end)),
        Err(x) => Err(x),
    }
}

pub open spec fn exprs_view(v: Seq<Expression>) -> Seq<ExprModel> {
    Seq::new(v.len(), |i: int| v[i]@)
}

pub open spec fn stmts_view(v: Seq<Statement>) -> Seq<StmtModel> {
    Seq::new(v.len(), |i: int| v[i]@)
}

/// Tokens before the end-of-input token lie below `s.len()`.
pub proof fn lemma_live(s: Seq<char>, base: int, k: nat)
    requires
        0 <= base <= s.len(),
        kind_at(s, base, k) != TokenType::Eof,
    ensures
        k < s.len(),
{
    lemma_pos_after(s, base, k);
    lemma_pos_after(s, base, k + 1);
}

/// Which parse a token that starts an expression leads to.
pub proof fn lemma_prefix_cases(s: Seq<char>, base: int, k: nat)
    requires
        0 <= base <= s.len(),
        kind_at(s, base, k) != TokenType::Eof,
    ensures
        kind_at(s, base, k) == TokenType::Lparen ==> parse_prefix(s, base, k) == parse_grouped(s, base, k),
        kind_at(s, base, k) == TokenType::If ==> parse_prefix(s, base, k) == parse_if(s, base, k),
        kind_at(s, base, k) == TokenType::Function ==> parse_prefix(s, base, k) == parse_func(s, base, k),
{
    reveal_with_fuel(parse_prefix, 2);
    reveal_with_fuel(parse_grouped, 1);
    reveal_with_fuel(parse_if, 1);
    reveal_with_fuel(parse_func, 1);
    lemma_live(s, base, k);
}

/// A token that cannot start an expression is reported as such.
proof fn lemma_no_prefix(s: Seq<char>, base: int, k: nat)
    requires
        0 <= base <= s.len(),
        !matches!(
            kind_at(s, base, k),
            TokenType::Ident | TokenType::Int | TokenType::Bang | TokenType::Minus | TokenType::True
                | TokenType::False | TokenType::Lparen | TokenType::If | TokenType::Function
        ),
    ensures
        parse_prefix(s, base, k) == Err::<(ExprModel, nat), ParseError>(
            ParseError::NoPrefixParseFn { found: kind_at(s, base, k) },
        ),
{
    reveal_with_fuel(parse_prefix, 1);
    if k >= s.len() {
        lemma_eof_from(s, base, k);
    }
}

/// A token that cannot continue an expression is reported as such.
proof fn lemma_no_infix(s: Seq<char>, base: int, left: ExprModel, k: nat)
    requires
        0 <= base <= s.len(),
        !is_binary(kind_at(s, base, k)),
        kind_at(s, base, k) != TokenType::Lparen,
    ensures
        parse_infix(s, base, left, k) == Err::<(ExprModel, nat), ParseError>(
            ParseError::NoInfixParseFn { found: kind_at(s, base, k) },
        ),
{
    reveal_with_fuel(parse_infix, 1);
    if k >= s.len() {
        lemma_eof_from(s, base, k);
    }
}

proof fn lemma_digits_value_mono(t: Seq<char>, j: int, m: int)
    requires
        0 <= j <= m <= t.len(),
        forall|i: int| 0 <= i < t.len() ==> is_digit(#[trigger] t[i]),
    ensures
        0 <= digits_value(t.subrange(0, j)) <= digits_value(t.subrange(0, m)),
    decreases m,
{
    if j < m {
        lemma_digits_value_mono(t, j, m - 1);
        assert(t.subrange(0, m).subrange(0, m - 1) == t.subrange(0, m - 1));
        assert(t.subrange(0, m)[m - 1] == t[m - 1]);
    } else if j > 0 {
        lemma_digits_value_mono(t, j - 1, j - 1);
        assert(t.subrange(0, j).subrange(0, j - 1) == t.subrange(0, j - 1));
        assert(t.subrange(0, j)[j - 1] == t[j - 1]);
    }
}

/// The value of a run of digits, if it fits in an `i64`.
fn digits_to_i64(t: &str) -> (r: Option<i64>)
    requires
        forall|i: int| 0 <= i < t@.len() ==> is_digit(#[trigger] t@[i]),
    ensures
        r == (if digits_value(t@) <= i64::MAX {
            Some(digits_value(t@) as i64)
        } else {
            None
        }),
{
    let n = t.unicode_len();
    let mut v: i64 = 0;
    let mut i: usize = 0;
    assert(t@.subrange(0, 0) =~= Seq::<char>::empty());
    while i < n
        invariant
            n == t@.len(),
            i <= n,
            forall|i: int| 0 <= i < t@.len() ==> is_digit(#[trigger] t@[i]),
            v as int == digits_value(t@.subrange(0, i as int)),
            0 <= v,
        decreases n - i,
    {
        let c = t.get_char(i);
        let d: i64 = (c as u32 - '0' as u32) as i64;
        assert(t@.subrange(0, i + 1).subrange(0, i as int) == t@.subrange(0, i as int));
        assert(t@.subrange(0, i + 1)[i as int] == c);
        if v > 922337203685477580 || (v == 922337203685477580 && d > 7) {
            proof {
                lemma_digits_value_mono(t@, i + 1, n as int);
                assert(t@.subrange(0, n as int) == t@);
            }
            return None;
        }
        v = v * 10 + d;
        i = i + 1;
    }
    assert(t@.subrange(0, n as int) == t@);
    Some(v)
}

impl Precedence {
    pub fn rank(&self) -> (r: u8)
        ensures
            r == prec_rank(*self),
    {
        match self {
            Precedence::Lowest => 0,
            Precedence::Equals => 1,
            Precedence::LessGreater => 2,
            Precedence::Sum => 3,
            Precedence::Product => 4,
            Precedence::Prefix => 5,
            Precedence::Call => 6,
        }
    }
}

/// A recursive-descent parser that pulls tokens from a lexer through a window of two tokens:
/// the current one and the next one.
pub struct Parser {
    lexer: Lexer,
    cur_token: Token,
    peek_token: Token,
    index: Ghost<nat>,
    start: Ghost<int>,
}

impl Parser {
    /// The source text being parsed.
    pub closed spec fn source(&self) -> Seq<char> {
        self.lexer.source()
    }

    /// The position in the source text where the token stream begins.
    pub closed spec fn start(&self) -> int {
        self.start@
    }

    /// The index of the current token in the token stream.
    pub closed spec fn index(&self) -> nat {
        self.index@
    }

    pub closed spec fn wf(&self) -> bool {
        &&& self.lexer.wf()
        &&& 0 <= self.start@ <= self.lexer.source().len()
        &&& self.cur_token@ == token_at(self.lexer.source(), self.start@, self.index@)
        &&& self.peek_token@ == token_at(self.lexer.source(), self.start@, self.index@ + 1)
        &&& self.lexer.pos() == pos_after(self.lexer.source(), self.start@, self.index@ + 2)
    }

    /// The parser's stream starts inside its source text.
    pub proof fn lemma_wf(&self)
        requires
            self.wf(),
        ensures
            0 <= self.start() <= self.source().len(),
            self.source().len() <= usize::MAX,
    {
        self.lexer.lemma_wf();
    }

    /// The kind of the token at index `j` of the stream.
    pub open spec fn kind(&self, j: nat) -> TokenType {
        kind_at(self.source(), self.start(), j)
    }

    /// The parser moves on over the same stream.
    pub open spec fn same_stream(&self, other: &Parser) -> bool {
        &&& self.wf()
        &&& self.source() == other.source()
        &&& self.start() == other.start()
    }

    proof fn lemma_bounds(&self)
        requires
            self.wf(),
        ensures
            0 <= self.start() <= self.source().len(),
            self.kind(self.index()) != TokenType::Eof ==> self.index() < self.source().len(),
            self.kind(self.index() + 1) != TokenType::Eof ==> self.index() + 1
                < self.source().len(),
            self.index() >= self.source().len() ==> self.kind(self.index()) == TokenType::Eof,
            self.index() + 1 >= self.source().len() ==> self.kind(self.index() + 1)
                == TokenType::Eof,
    {
        let s = self.source();
        let base = self.start();
        let k = self.index();
        if self.kind(k) != TokenType::Eof {
            lemma_live(s, base, k);
        }
        if self.kind(k + 1) != TokenType::Eof {
            lemma_live(s, base, k + 1);
        }
        if k >= s.len() {
            lemma_eof_from(s, base, k);
        }
        if k + 1 >= s.len() {
            lemma_eof_from(s, base, k + 1);
        }
    }

    /// A parser over the tokens of `lexer` from its current position on.
    pub fn new(lexer: Lexer) -> (r: Parser)
        requires
            lexer.wf(),
        ensures
            r.wf(),
            r.source() == lexer.source(),
            r.start() == lexer.pos(),
            r.index() == 0,
    {
        let mut lexer = lexer;
        let ghost base = lexer.pos();
        proof {
            lexer.lemma_wf();
            reveal(token_at);
        }
        let cur_token = lexer.next_token();
        let peek_token = lexer.next_token();
        let r = Parser { lexer, cur_token, peek_token, index: Ghost(0), start: Ghost(base) };
        r
    }

    /// Shifts the window one token forward.
    pub fn next_token(&mut self)
        requires
            old(self).wf(),
        ensures
            final(self).same_stream(old(self)),
            final(self).index() == old(self).index() + 1,
    {
        proof {
            reveal(token_at);
        }
        let mut t = self.lexer.next_token();
        std::mem::swap(&mut self.peek_token, &mut t);
        self.cur_token = t;
        self.index = Ghost(self.index@ + 1);
    }

    pub fn cur_token_is(&self, token_type: TokenType) -> (r: bool)
        requires
            self.wf(),
        ensures
            r == (self.kind(self.index()) == token_type),
    {
        self.cur_token.token_type == token_type
    }

    pub fn peek_token_is(&self, token_type: TokenType) -> (r: bool)
        requires
            self.wf(),
        ensures
            r == (self.kind(self.index() + 1) == token_type),
    {
        self.peek_token.token_type == token_type
    }

    /// Moves forward if the next token has kind `token_type`; reports whether it did.
    pub fn expect_peek(&mut self, token_type: TokenType) -> (r: bool)
        requires
            old(self).wf(),
        ensures
            final(self).same_stream(old(self)),
            r == (old(self).kind(old(self).index() + 1) == token_type),
            final(self).index() == (if r {
                old(self).index() + 1
            } else {
                old(self).index()
            }),
    {
        if self.peek_token_is(token_type) {
            self.next_token();
            true
        } else {
            false
        }
    }

    /// The precedence with which a token of kind `t` binds as an infix operator.
    pub fn get_precedence(t: TokenType) -> (r: Precedence)
        ensures
            r == precedence_of(t),
    {
        match t {
            TokenType::Eq | TokenType::NotEq => Precedence::Equals,
            TokenType::Lt | TokenType::Gt => Precedence::LessGreater,
            TokenType::Plus | TokenType::Minus => Precedence::Sum,
            TokenType::Slash | TokenType::Asterisk => Precedence::Product,
            TokenType::Lparen => Precedence::Call,
            _ => Precedence::Lowest,
        }
    }

    pub fn peek_precedence(&self) -> (r: Precedence)
        requires
            self.wf(),
        ensures
            r == precedence_of(self.kind(self.index() + 1)),
    {
        Self::get_precedence(self.peek_token.token_type)
    }

    pub fn cur_precedence(&self) -> (r: Precedence)
        requires
            self.wf(),
        ensures
            r == precedence_of(self.kind(self.index())),
    {
        Self::get_precedence(self.cur_token.token_type)
    }

    pub fn parse_identifier(&mut self) -> (r: Result<Expression, ParseError>)
        requires
            old(self).wf(),
            old(self).kind(old(self).index()) == TokenType::Ident,
        ensures
            final(self).same_stream(old(self)),
            final(self).index() == old(self).index(),
            outcome(r, final(self).index()) == parse_prefix(
                old(self).source(),
                old(self).start(),
                old(self).index(),
            ),
    {
        proof {
            self.lemma_bounds();
        }
        let token = self.cur_token.clone();
        let value = token.literal.clone();
        Ok(Expression::Identifier(Identifier { token, value }))
    }

    pub fn parse_integer_literal(&mut self) -> (r: Result<Expression, ParseError>)
        requires
            old(self).wf(),
            old(self).kind(old(self).index()) == TokenType::Int,
        ensures
            final(self).same_stream(old(self)),
            final(self).index() == old(self).index(),
            outcome(r, final(self).index()) == parse_prefix(
                old(self).source(),
                old(self).start(),
                old(self).index(),
            ),
    {
        proof {
            self.lemma_bounds();
            lemma_int_token_digits(self.source(), self.start(), self.index());
        }
        let token = self.cur_token.clone();
        match digits_to_i64(token.literal.as_str()) {
            Some(value) => Ok(Expression::IntegerLiteral(IntegerLiteral { token, value })),
            None => Err(ParseError::IntegerOutOfRange),
        }
    }

    pub fn parse_boolean(&mut self) -> (r: Result<Expression, ParseError>)
        requires
            old(self).wf(),
            old(self).kind(old(self).index()) == TokenType::True || old(self).kind(
                old(self).index(),
            ) == TokenType::False,
        ensures
            final(self).same_stream(old(self)),
            final(self).index() == old(self).index(),
            outcome(r, final(self).index()) == parse_prefix(
                old(self).source(),
                old(self).start(),
                old(self).index(),
            ),
    {
        proof {
            self.lemma_bounds();
        }
        let token = self.cur_token.clone();
        let value = token.token_type == TokenType::True;
        Ok(Expression::Boolean(crate::ast::Boolean { token, value }))
    }

    pub fn parse_prefix_expression(&mut self) -> (r: Result<Expression, ParseError>)
        requires
            old(self).wf(),
            old(self).kind(old(self).index()) == TokenType::Bang || old(self).kind(
                old(self).index(),
            ) == TokenType::Minus,
        ensures
            final(self).same_stream(old(self)),
            outcome(r, final(self).index()) == parse_prefix(
                old(self).source(),
                old(self).start(),
                old(self).index(),
            ),
            r is Ok ==> final(self).index() > old(self).index(),
        decreases rem(old(self).source(), old(self).index()), 1nat,
    {
        proof {
            self.lemma_bounds();
        }
        let token = self.cur_token.clone();
        let operator = token.literal.clone();
        self.next_token();
        let right = match self.parse_expression(Precedence::Prefix) {
            Ok(e) => e,
            Err(x) => {
                return Err(x);
            },
        };
        Ok(Expression::Prefix(PrefixExpression { token, operator, right: Box::new(right) }))
    }

    pub fn parse_grouped_expression(&mut self) -> (r: Result<Expression, ParseError>)
        requires
            old(self).wf(),
            old(self).kind(old(self).index()) == TokenType::Lparen,
        ensures
            final(self).same_stream(old(self)),
            outcome(r, final(self).index()) == parse_grouped(
                old(self).source(),
                old(self).start(),
                old(self).index(),
            ),
            r is Ok ==> final(self).index() > old(self).index(),
        decreases rem(old(self).source(), old(self).index()), 1nat,
    {
        proof {
            self.lemma_bounds();
        }
        self.next_token();
        let inner = match self.parse_expression(Precedence::Lowest) {
            Ok(e) => e,
            Err(x) => {
                return Err(x);
            },
        };
        if !self.expect_peek(TokenType::Rparen) {
            return Err(
                ParseError::UnexpectedToken {
                    expected: TokenType::Rparen,
                    found: self.peek_token.token_type,
                },
            );
        }
        Ok(inner)
    }

    pub fn parse_if_expression(&mut self) -> (r: Result<Expression, ParseError>)
        requires
            old(self).wf(),
            old(self).kind(old(self).index()) == TokenType::If,
        ensures
            final(self).same_stream(old(self)),
            outcome(r, final(self).index()) == parse_if(
                old(self).source(),
                old(self).start(),
                old(self).index(),
            ),
            r is Ok ==> final(self).index() > old(self).index(),
        decreases rem(old(self).source(), old(self).index()), 1nat,
    {
        proof {
            self.lemma_bounds();
        }
        let token = self.cur_token.clone();
        if !self.expect_peek(TokenType::Lparen) {
            return Err(
                ParseError::UnexpectedToken {
                    expected: TokenType::Lparen,
                    found: self.peek_token.token_type,
                },
            );
        }
        self.next_token();
        let condition = match self.parse_expression(Precedence::Lowest) {
            Ok(e) => e,
            Err(x) => {
                return Err(x);
            },
        };
        if !self.expect_peek(TokenType::Rparen) {
            return Err(
                ParseError::UnexpectedToken {
                    expected: TokenType::Rparen,
                    found: self.peek_token.token_type,
                },
            );
        }
        if !self.expect_peek(TokenType::Lbrace) {
            return Err(
                ParseError::UnexpectedToken {
                    expected: TokenType::Lbrace,
                    found: self.peek_token.token_type,
                },
            );
        }
        let consequence = match self.parse_block_statement() {
            Ok(b) => b,
            Err(x) => {
                return Err(x);
            },
        };
        let alternative = if self.peek_token_is(TokenType::Else) {
            self.next_token();
            if !self.expect_peek(TokenType::Lbrace) {
                return Err(
                    ParseError::UnexpectedToken {
                        expected: TokenType::Lbrace,
                        found: self.peek_token.token_type,
                    },
                );
            }
            match self.parse_block_statement() {
                Ok(b) => Some(b),
                Err(x) => {
                    return Err(x);
                },
            }
        } else {
            None
        };
        Ok(
            Expression::If(
                IfExpression { token, condition: Box::new(condition), consequence, alternative },
            ),
        )
    }

    pub fn parse_block_statement(&mut self) -> (r: Result<BlockStatement, ParseError>)
        requires
            old(self).wf(),
            old(self).kind(old(self).index()) == TokenType::Lbrace,
        ensures
            final(self).same_stream(old(self)),
            outcome(r, final(self).index()) == parse_block(
                old(self).source(),
                old(self).start(),
                old(self).index(),
            ),
            r is Ok ==> final(self).index() > old(self).index(),
        decreases rem(old(self).source(), old(self).index()), 0nat,
    {
        proof {
            self.lemma_bounds();
        }
        let ghost s = self.source();
        let ghost base = self.start();
        let ghost k = self.index();
        let token = self.cur_token.clone();
        let mut statements: Vec<Statement> = Vec::new();
        assert(stmts_view(statements@) =~= Seq::<StmtModel>::empty());
        self.next_token();
        while !self.cur_token_is(TokenType::Rbrace) && !self.cur_token_is(TokenType::Eof)
            invariant
                self.wf(),
                self.source() == s,
                self.start() == base,
                s == old(self).source(),
                base == old(self).start(),
                k == old(self).index(),
                self.index() > k,
                k < s.len(),
                parse_block_rest(s, base, k + 1, Seq::empty()) == parse_block_rest(
                    s,
                    base,
                    self.index(),
                    stmts_view(statements@),
                ),
            decreases rem(s, self.index()),
        {
            proof {
                self.lemma_bounds();
            }
            let st = match self.parse_statement() {
                Ok(st) => st,
                Err(x) => {
                    return Err(x);
                },
            };
            let ghost before = statements@;
            statements.push(st);
            assert(stmts_view(statements@) =~= stmts_view(before).push(st@));
            self.next_token();
        }
        proof {
            self.lemma_bounds();
        }
        let r = BlockStatement { token, statements };
        assert(r@.stmts =~= stmts_view(r.statements@));
        Ok(r)
    }

    pub fn parse_function_literal(&mut self) -> (r: Result<Expression, ParseError>)
        requires
            old(self).wf(),
            old(self).kind(old(self).index()) == TokenType::Function,
        ensures
            final(self).same_stream(old(self)),
            outcome(r, final(self).index()) == parse_func(
                old(self).source(),
                old(self).start(),
                old(self).index(),
            ),
            r is Ok ==> final(self).index() > old(self).index(),
        decreases rem(old(self).source(), old(self).index()), 1nat,
    {
        proof {
            self.lemma_bounds();
        }
        let token = self.cur_token.clone();
        if !self.expect_peek(TokenType::Lparen) {
            return Err(
                ParseError::UnexpectedToken {
                    expected: TokenType::Lparen,
                    found: self.peek_token.token_type,
                },
            );
        }
        let parameters = match self.parse_function_parameters() {
            Ok(p) => p,
            Err(x) => {
                return Err(x);
            },
        };
        if !self.expect_peek(TokenType::Lbrace) {
            return Err(
                ParseError::UnexpectedToken {
                    expected: TokenType::Lbrace,
                    found: self.peek_token.token_type,
                },
            );
        }
        let body = match self.parse_block_statement() {
            Ok(b) => b,
            Err(x) => {
                return Err(x);
            },
        };
        Ok(Expression::Function(FunctionLiteral { token, parameters, body }))
    }

    /// The parameter list of a function literal; the current token is its opening parenthesis.
    pub fn parse_function_parameters(&mut self) -> (r: Result<Vec<Identifier>, ParseError>)
        requires
            old(self).wf(),
        ensures
            final(self).same_stream(old(self)),
            match r {
                Ok(v) => parse_params(old(self).source(), old(self).start(), old(self).index())
                    == Ok::<(Seq<IdentModel>, nat), ParseError>((params_model(v@), final(self).index())) && final(self).index() > old(
                    self,
                ).index(),
                Err(x) => parse_params(old(self).source(), old(self).start(), old(self).index())
                    == Err::<(Seq<IdentModel>, nat), ParseError>(x),
            },
    {
        let ghost s = self.source();
        let ghost base = self.start();
        let ghost k = self.index();
        let mut identifiers: Vec<Identifier> = Vec::new();
        if self.peek_token_is(TokenType::Rparen) {
            self.next_token();
            assert(params_model(identifiers@) =~= Seq::<IdentModel>::empty());
            return Ok(identifiers);
        }
        if !self.expect_peek(TokenType::Ident) {
            return Err(
                ParseError::UnexpectedToken {
                    expected: TokenType::Ident,
                    found: self.peek_token.token_type,
                },
            );
        }
        let token = self.cur_token.clone();
        let value = token.literal.clone();
        identifiers.push(Identifier { token, value });
        assert(params_model(identifiers@) =~= seq![ident_of(token_at(s, base, k + 1))]);
        while self.peek_token_is(TokenType::Comma)
            invariant
                self.wf(),
                self.source() == s,
                self.start() == base,
                s == old(self).source(),
                base == old(self).start(),
                k == old(self).index(),
                self.index() > k,
                parse_params(s, base, k) == parse_params_rest(
                    s,
                    base,
                    self.index(),
                    params_model(identifiers@),
                ),
            decreases rem(s, self.index()),
        {
            proof {
                self.lemma_bounds();
            }
            self.next_token();
            if !self.expect_peek(TokenType::Ident) {
                return Err(
                    ParseError::UnexpectedToken {
                        expected: TokenType::Ident,
                        found: self.peek_token.token_type,
                    },
                );
            }
            let token = self.cur_token.clone();
            let value = token.literal.clone();
            let ghost before = identifiers@;
            identifiers.push(Identifier { token, value });
            assert(params_model(identifiers@) =~= params_model(before).push(
                ident_of(token_at(s, base, self.index())),
            ));
        }
        if !self.expect_peek(TokenType::Rparen) {
            return Err(
                ParseError::UnexpectedToken {
                    expected: TokenType::Rparen,
                    found: self.peek_token.token_type,
                },
            );
        }
        Ok(identifiers)
    }

    pub fn parse_call_expression(&mut self, left: Expression) -> (r: Result<Expression, ParseError>)
        requires
            old(self).wf(),
            old(self).kind(old(self).index()) == TokenType::Lparen,
        ensures
            final(self).same_stream(old(self)),
            outcome(r, final(self).index()) == parse_infix(
                old(self).source(),
                old(self).start(),
                left@,
                old(self).index(),
            ),
            r is Ok ==> final(self).index() > old(self).index(),
        decreases rem(old(self).source(), old(self).index()), 1nat,
    {
        proof {
            self.lemma_bounds();
        }
        let token = self.cur_token.clone();
        let arguments = match self.parse_call_arguments() {
            Ok(a) => a,
            Err(x) => {
                return Err(x);
            },
        };
        let r = Expression::Call(CallExpression { token, function: Box::new(left), arguments });
        assert(r@->Call_args =~= exprs_view(arguments@));
        Ok(r)
    }

    /// The arguments of a call; the current token is its opening parenthesis.
    pub fn parse_call_arguments(&mut self) -> (r: Result<Vec<Expression>, ParseError>)
        requires
            old(self).wf(),
            old(self).kind(old(self).index()) == TokenType::Lparen,
        ensures
            final(self).same_stream(old(self)),
            match r {
                Ok(v) => parse_args(old(self).source(), old(self).start(), old(self).index())
                    == Ok::<(Seq<ExprModel>, nat), ParseError>((exprs_view(v@), final(self).index())) && final(self).index() > old(
                    self,
                ).index(),
                Err(x) => parse_args(old(self).source(), old(self).start(), old(self).index())
                    == Err::<(Seq<ExprModel>, nat), ParseError>(x),
            },
        decreases rem(old(self).source(), old(self).index()), 0nat,
    {
        proof {
            self.lemma_bounds();
        }
        let ghost s = self.source();
        let ghost base = self.start();
        let ghost k = self.index();
        let mut args: Vec<Expression> = Vec::new();
        if self.peek_token_is(TokenType::Rparen) {
            self.next_token();
            assert(exprs_view(args@) =~= Seq::<ExprModel>::empty());
            return Ok(args);
        }
        self.next_token();
        let first = match self.parse_expression(Precedence::Lowest) {
            Ok(e) => e,
            Err(x) => {
                return Err(x);
            },
        };
        args.push(first);
        assert(exprs_view(args@) =~= seq![first@]);
        while self.peek_token_is(TokenType::Comma)
            invariant
                self.wf(),
                self.source() == s,
                self.start() == base,
                s == old(self).source(),
                base == old(self).start(),
                k == old(self).index(),
                self.index() > k,
                k < s.len(),
                parse_args(s, base, k) == parse_args_rest(s, base, exprs_view(args@), self.index()),
            decreases rem(s, self.index()),
        {
            proof {
                self.lemma_bounds();
            }
            self.next_token();
            self.next_token();
            let a = match self.parse_expression(Precedence::Lowest) {
                Ok(e) => e,
                Err(x) => {
                    return Err(x);
                },
            };
            let ghost before = args@;
            args.push(a);
            assert(exprs_view(args@) =~= exprs_view(before).push(a@));
        }
        if !self.peek_token_is(TokenType::Rparen) {
            return Err(
                ParseError::UnexpectedToken {
                    expected: TokenType::Rparen,
                    found: self.peek_token.token_type,
                },
            );
        }
        self.next_token();
        Ok(args)
    }

    pub fn parse_infix_expression(&mut self, left: Expression) -> (r: Result<Expression, ParseError>)
        requires
            old(self).wf(),
            is_binary(old(self).kind(old(self).index())),
        ensures
            final(self).same_stream(old(self)),
            outcome(r, final(self).index()) == parse_infix(
                old(self).source(),
                old(self).start(),
                left@,
                old(self).index(),
            ),
            r is Ok ==> final(self).index() > old(self).index(),
        decreases rem(old(self).source(), old(self).index()), 1nat,
    {
        proof {
            self.lemma_bounds();
        }
        let token = self.cur_token.clone();
        let operator = token.literal.clone();
        let precedence = Self::get_precedence(token.token_type);
        self.next_token();
        let right = match self.parse_expression(precedence) {
            Ok(e) => e,
            Err(x) => {
                return Err(x);
            },
        };
        Ok(
            Expression::Infix(
                InfixExpression { token, left: Box::new(left), operator, right: Box::new(right) },
            ),
        )
    }

    /// Parses the expression that starts with the current token, of kind `token_type`.
    pub fn prefix_parse_fn(&mut self, token_type: TokenType) -> (r: Result<Expression, ParseError>)
        requires
            old(self).wf(),
            token_type == old(self).kind(old(self).index()),
        ensures
            final(self).same_stream(old(self)),
            outcome(r, final(self).index()) == parse_prefix(
                old(self).source(),
                old(self).start(),
                old(self).index(),
            ),
            r is Ok ==> final(self).index() >= old(self).index(),
        decreases rem(old(self).source(), old(self).index()), 2nat,
    {
        proof {
            self.lemma_bounds();
        }
        proof {
            if token_type != TokenType::Eof {
                lemma_prefix_cases(self.source(), self.start(), self.index());
            }
        }
        match token_type {
            TokenType::Ident => self.parse_identifier(),
            TokenType::Int => self.parse_integer_literal(),
            TokenType::Bang | TokenType::Minus => self.parse_prefix_expression(),
            TokenType::True | TokenType::False => self.parse_boolean(),
            TokenType::Lparen => self.parse_grouped_expression(),
            TokenType::If => self.parse_if_expression(),
            TokenType::Function => self.parse_function_literal(),
            _ => {
                proof {
                    lemma_no_prefix(self.source(), self.start(), self.index());
                }
                Err(ParseError::NoPrefixParseFn { found: token_type })
            },
        }
    }

    /// Applies the operator or call at the current token, of kind `token_type`, to `left`.
    pub fn infix_parse_fn(&mut self, token_type: TokenType, left: Expression) -> (r: Result<
        Expression,
        ParseError,
    >)
        requires
            old(self).wf(),
            token_type == old(self).kind(old(self).index()),
        ensures
            final(self).same_stream(old(self)),
            outcome(r, final(self).index()) == parse_infix(
                old(self).source(),
                old(self).start(),
                left@,
                old(self).index(),
            ),
            r is Ok ==> final(self).index() > old(self).index(),
        decreases rem(old(self).source(), old(self).index()), 2nat,
    {
        proof {
            self.lemma_bounds();
        }
        match token_type {
            TokenType::Plus | TokenType::Minus | TokenType::Slash | TokenType::Asterisk
            | TokenType::Eq | TokenType::NotEq | TokenType::Lt | TokenType::Gt => self.parse_infix_expression(left),
            TokenType::Lparen => self.parse_call_expression(left),
            _ => {
                proof {
                    lemma_no_infix(self.source(), self.start(), left@, self.index());
                }
                Err(ParseError::NoInfixParseFn { found: token_type })
            },
        }
    }

    /// Parses an expression from the current token whose operators bind tighter than
    /// `precedence`; afterwards the current token is its last one.
    pub fn parse_expression(&mut self, precedence: Precedence) -> (r: Result<Expression, ParseError>)
        requires
            old(self).wf(),
        ensures
            final(self).same_stream(old(self)),
            outcome(r, final(self).index()) == parse_expr(
                old(self).source(),
                old(self).start(),
                old(self).index(),
                precedence,
            ),
            r is Ok ==> final(self).index() >= old(self).index(),
        decreases rem(old(self).source(), old(self).index()), 3nat,
    {
        proof {
            self.lemma_bounds();
        }
        let ghost s = self.source();
        let ghost base = self.start();
        let ghost k = self.index();
        let tt = self.cur_token.token_type;
        let mut expr = match self.prefix_parse_fn(tt) {
            Ok(e) => e,
            Err(x) => {
                return Err(x);
            },
        };
        while !self.peek_token_is(TokenType::Semicolon) && precedence.rank()
            < self.peek_precedence().rank()
            invariant
                self.wf(),
                self.source() == s,
                self.start() == base,
                s == old(self).source(),
                base == old(self).start(),
                k == old(self).index(),
                self.index() >= k,
                k < s.len(),
                parse_expr(s, base, k, precedence) == parse_infix_loop(
                    s,
                    base,
                    expr@,
                    self.index(),
                    precedence,
                ),
            decreases rem(s, self.index()),
        {
            proof {
                self.lemma_bounds();
            }
            let tt = self.peek_token.token_type;
            self.next_token();
            expr = match self.infix_parse_fn(tt, expr) {
                Ok(e) => e,
                Err(x) => {
                    return Err(x);
                },
            };
        }
        proof {
            self.lemma_bounds();
        }
        Ok(expr)
    }

    pub fn parse_let_statement(&mut self) -> (r: Result<Statement, ParseError>)
        requires
            old(self).wf(),
            old(self).kind(old(self).index()) == TokenType::Let,
        ensures
            final(self).same_stream(old(self)),
            outcome(r, final(self).index()) == parse_stmt(
                old(self).source(),
                old(self).start(),
                old(self).index(),
            ),
            r is Ok ==> final(self).index() >= old(self).index(),
        decreases rem(old(self).source(), old(self).index()), 4nat,
    {
        proof {
            self.lemma_bounds();
        }
        let token = self.cur_token.clone();
        if !self.expect_peek(TokenType::Ident) {
            return Err(
                ParseError::UnexpectedToken {
                    expected: TokenType::Ident,
                    found: self.peek_token.token_type,
                },
            );
        }
        let name_token = self.cur_token.clone();
        let value = name_token.literal.clone();
        let name = Identifier { token: name_token, value };
        if !self.expect_peek(TokenType::Assign) {
            return Err(
                ParseError::UnexpectedToken {
                    expected: TokenType::Assign,
                    found: self.peek_token.token_type,
                },
            );
        }
        self.next_token();
        let value = match self.parse_expression(Precedence::Lowest) {
            Ok(e) => e,
            Err(x) => {
                return Err(x);
            },
        };
        if self.peek_token_is(TokenType::Semicolon) {
            self.next_token();
        }
        Ok(Statement::Let(LetStatement { token, name, value }))
    }

    pub fn parse_return_statement(&mut self) -> (r: Result<Statement, ParseError>)
        requires
            old(self).wf(),
            old(self).kind(old(self).index()) == TokenType::Return,
        ensures
            final(self).same_stream(old(self)),
            outcome(r, final(self).index()) == parse_stmt(
                old(self).source(),
                old(self).start(),
                old(self).index(),
            ),
            r is Ok ==> final(self).index() >= old(self).index(),
        decreases rem(old(self).source(), old(self).index()), 4nat,
    {
        proof {
            self.lemma_bounds();
        }
        let token = self.cur_token.clone();
        self.next_token();
        let return_value = match self.parse_expression(Precedence::Lowest) {
            Ok(e) => e,
            Err(x) => {
                return Err(x);
            },
        };
        if self.peek_token_is(TokenType::Semicolon) {
            self.next_token();
        }
        Ok(Statement::Return(ReturnStatement { token, return_value }))
    }

    pub fn parse_expression_statement(&mut self) -> (r: Result<Statement, ParseError>)
        requires
            old(self).wf(),
            old(self).kind(old(self).index()) != TokenType::Let,
            old(self).kind(old(self).index()) != TokenType::Return,
        ensures
            final(self).same_stream(old(self)),
            outcome(r, final(self).index()) == parse_stmt(
                old(self).source(),
                old(self).start(),
                old(self).index(),
            ),
            r is Ok ==> final(self).index() >= old(self).index(),
        decreases rem(old(self).source(), old(self).index()), 4nat,
    {
        proof {
            self.lemma_bounds();
        }
        let token = self.cur_token.clone();
        let expression = match self.parse_expression(Precedence::Lowest) {
            Ok(e) => e,
            Err(x) => {
                return Err(x);
            },
        };
        if self.peek_token_is(TokenType::Semicolon) {
            self.next_token();
        }
        Ok(Statement::Expression(ExpressionStatement { token, expression }))
    }

    /// Parses the statement that starts at the current token; afterwards the current token is
    /// its last one.
    pub fn parse_statement(&mut self) -> (r: Result<Statement, ParseError>)
        requires
            old(self).wf(),
        ensures
            final(self).same_stream(old(self)),
            outcome(r, final(self).index()) == parse_stmt(
                old(self).source(),
                old(self).start(),
                old(self).index(),
            ),
            r is Ok ==> final(self).index() >= old(self).index(),
        decreases rem(old(self).source(), old(self).index()), 5nat,
    {
        match self.cur_token.token_type {
            TokenType::Let => self.parse_let_statement(),
            TokenType::Return => self.parse_return_statement(),
            _ => self.parse_expression_statement(),
        }
    }

    /// Parses statements from the current token to the end of input. The first error aborts
    /// the whole parse.
    pub fn parse_program(&mut self) -> (r: Result<Program, ParseError>)
        requires
            old(self).wf(),
        ensures
            final(self).same_stream(old(self)),
            match r {
                Ok(p) => parse_stmts(old(self).source(), old(self).start(), old(self).index(), Seq::empty())
                    == Ok::<Seq<StmtModel>, ParseError>(p@),
                Err(x) => parse_stmts(old(self).source(), old(self).start(), old(self).index(), Seq::empty())
                    == Err::<Seq<StmtModel>, ParseError>(x),
            },
    {
        let ghost s = self.source();
        let ghost base = self.start();
        let ghost k = self.index();
        let mut statements: Vec<Statement> = Vec::new();
        assert(stmts_view(statements@) =~= Seq::<StmtModel>::empty());
        while !self.cur_token_is(TokenType::Eof)
            invariant
                self.wf(),
                self.source() == s,
                self.start() == base,
                s == old(self).source(),
                base == old(self).start(),
                k == old(self).index(),
                self.index() >= k,
                parse_stmts(s, base, k, Seq::empty()) == parse_stmts(
                    s,
                    base,
                    self.index(),
                    stmts_view(statements@),
                ),
            decreases rem(s, self.index()),
        {
            proof {
                self.lemma_bounds();
            }
            let st = match self.parse_statement() {
                Ok(st) => st,
                Err(x) => {
                    return Err(x);
                },
            };
            let ghost before = statements@;
            statements.push(st);
            assert(stmts_view(statements@) =~= stmts_view(before).push(st@));
            self.next_token();
        }
        proof {
            self.lemma_bounds();
        }
        let r = Program { statements };
        assert(r@ =~= stmts_view(r.statements@));
        Ok(r)
    }
}

/// Parses a whole source text into a program, or reports its first syntax error.
pub fn parse(input: String) -> (r: Result<Program, ParseError>)
    ensures
        match r {
            Ok(p) => parse_source(input@) == Ok::<Seq<StmtModel>, ParseError>(p@),
            Err(x) => parse_source(input@) == Err::<Seq<StmtModel>, ParseError>(x),
        },
{
    let lexer = Lexer::new(input);
    let mut parser = Parser::new(lexer);
    parser.parse_program()
}

} // verus!

use vstd::prelude::*;
use crate::ast::{BlockModel, ExprModel, IdentModel, StmtModel};
use crate::lexer::{kind_at, token_at};
use crate::token::{Lexeme, TokenType};

verus! {

/// Binding strength of operators, weakest first.
#[derive(Debug, Clone, Copy, PartialEq, Eq, Structural)]
pub enum Precedence {
    Lowest,
    Equals,
    LessGreater,
    Sum,
    Product,
    Prefix,
    Call,
}

pub open spec fn prec_rank(p: Precedence) -> nat {
    match p {
        Precedence::Lowest => 0,
        Precedence::Equals => 1,
        Precedence::LessGreater => 2,
        Precedence::Sum => 3,
        Precedence::Product => 4,
        Precedence::Prefix => 5,
        Precedence::Call => 6,
    }
}

/// The precedence with which a token binds as an infix operator; `Lowest` if it is none.
pub open spec fn precedence_of(t: TokenType) -> Precedence {
    match t {
        TokenType::Eq | TokenType::NotEq => Precedence::Equals,
        TokenType::Lt | TokenType::Gt => Precedence::LessGreater,
        TokenType::Plus | TokenType::Minus => Precedence::Sum,
        TokenType::Slash | TokenType::Asterisk => Precedence::Product,
        TokenType::Lparen => Precedence::Call,
        _ => Precedence::Lowest,
    }
}

/// The binary operators.
pub open spec fn is_binary(t: TokenType) -> bool {
    match t {
        TokenType::Plus | TokenType::Minus | TokenType::Slash | TokenType::Asterisk | TokenType::Eq
        | TokenType::NotEq | TokenType::Lt | TokenType::Gt => true,
        _ => false,
    }
}

/// Why a parse failed.
#[derive(Debug, Clone, Copy, PartialEq, Eq, Structural)]
pub enum ParseError {
    /// A token of kind `expected` was required, and `found` came instead.
    UnexpectedToken { expected: TokenType, found: TokenType },
    /// No expression can start with a token of this kind.
    NoPrefixParseFn { found: TokenType },
    /// No expression can continue with a token of this kind.
    NoInfixParseFn { found: TokenType },
    /// An integer literal does not fit in 64 signed bits.
    IntegerOutOfRange,
}

/// The value of a run of decimal digits.
pub open spec fn digits_value(t: Seq<char>) -> int
    decreases t.len(),
{
    if t.len() == 0 {
        0
    } else {
        digits_value(t.subrange(0, t.len() - 1)) * 10 + (t[t.len() - 1] as int - '0' as int)
    }
}

// ---------------------------------------------------------------------------------------------
// What the parser computes, on the token stream of `s` scanned from `base`. Each function takes
// the index `k` of the current token and gives the tree it builds together with the index of
// the last token it consumed, or the first error it meets. The tests of an index against
// `s.len()` or against an earlier index only carry the termination argument: on the streams the
// lexer produces, each of them takes the branch that the token kinds alone would take, and
// the error value written in a branch that tests for an index going backwards is never
// produced.
// ---------------------------------------------------------------------------------------------

/// A bound on how much of the stream is left from index `k`: every token before the
/// end-of-input token has an index below `s.len()`.
pub open spec fn rem(s: Seq<char>, k: nat) -> nat {
    if k < s.len() {
        (s.len() - k) as nat
    } else {
        0
    }
}

/// The index after an optional semicolon following index `e`.
pub open spec fn skip_semicolon(s: Seq<char>, base: int, e: nat) -> nat {
    if kind_at(s, base, e + 1) == TokenType::Semicolon {
        e + 1
    } else {
        e
    }
}

pub open spec fn ident_of(t: Lexeme) -> IdentModel {
    IdentModel { tok: t, name: t.text }
}

/// An expression that starts at `k` and binds tighter than `prec` on its right.
pub open spec fn parse_expr(s: Seq<char>, base: int, k: nat, prec: Precedence) -> Result<
    (ExprModel, nat),
    ParseError,
>
    decreases rem(s, k), 3nat,
{
    if k >= s.len() {
        Err(ParseError::NoPrefixParseFn { found: TokenType::Eof })
    } else {
        match parse_prefix(s, base, k) {
            Err(x) => Err(x),
            Ok((left, e)) => if e < k {
                Err(ParseError::NoPrefixParseFn { found: TokenType::Eof })
            } else {
                parse_infix_loop(s, base, left, e, prec)
            },
        }
    }
}

/// Extends `left`, which ends at `e`, with infix operators that bind tighter than `prec`.
pub open spec fn parse_infix_loop(
    s: Seq<char>,
    base: int,
    left: ExprModel,
    e: nat,
    prec: Precedence,
) -> Result<(ExprModel, nat), ParseError>
    decreases rem(s, e), 2nat,
{
    let t = kind_at(s, base, e + 1);
    if t == TokenType::Semicolon || prec_rank(prec) >= prec_rank(precedence_of(t)) || e
        >= s.len() {
        Ok((left, e))
    } else {
        match parse_infix(s, base, left, e + 1) {
            Err(x) => Err(x),
            Ok((l2, e2)) => if e2 <= e {
                Ok((l2, e2))
            } else {
                parse_infix_loop(s, base, l2, e2, prec)
            },
        }
    }
}

/// The expression that starts with the token at `k`.
pub open spec fn parse_prefix(s: Seq<char>, base: int, k: nat) -> Result<(ExprModel, nat), ParseError>
    decreases rem(s, k), 2nat,
{
    let tok = token_at(s, base, k);
    if k >= s.len() {
        Err(ParseError::NoPrefixParseFn { found: TokenType::Eof })
    } else {
        match tok.kind {
            TokenType::Ident => Ok((ExprModel::Ident(ident_of(tok)), k)),
            TokenType::Int => if digits_value(tok.text) <= i64::MAX {
                Ok((ExprModel::Int { tok, value: digits_value(tok.text) as i64 }, k))
            } else {
                Err(ParseError::IntegerOutOfRange)
            },
            TokenType::Bang | TokenType::Minus => match parse_expr(
                s,
                base,
                k + 1,
                Precedence::Prefix,
            ) {
                Err(x) => Err(x),
                Ok((right, e)) => Ok(
                    (ExprModel::Prefix { tok, op: tok.text, right: Box::new(right) }, e),
                ),
            },
            TokenType::True | TokenType::False => Ok(
                (ExprModel::Bool { tok, truth: tok.kind == TokenType::True }, k),
            ),
            TokenType::Lparen => parse_grouped(s, base, k),
            TokenType::If => parse_if(s, base, k),
            TokenType::Function => parse_func(s, base, k),
            _ => Err(ParseError::NoPrefixParseFn { found: tok.kind }),
        }
    }
}

/// An expression in parentheses; `k` is the opening one.
pub open spec fn parse_grouped(s: Seq<char>, base: int, k: nat) -> Result<(ExprModel, nat), ParseError>
    decreases rem(s, k), 1nat,
{
    if k >= s.len() {
        Err(ParseError::NoPrefixParseFn { found: TokenType::Eof })
    } else {
        match parse_expr(s, base, k + 1, Precedence::Lowest) {
            Err(x) => Err(x),
            Ok((inner, e)) => if kind_at(s, base, e + 1) == TokenType::Rparen {
                Ok((inner, e + 1))
            } else {
                Err(
                    ParseError::UnexpectedToken {
                        expected: TokenType::Rparen,
                        found: kind_at(s, base, e + 1),
                    },
                )
            },
        }
    }
}

/// A conditional; `k` is the `if`.
pub open spec fn parse_if(s: Seq<char>, base: int, k: nat) -> Result<(ExprModel, nat), ParseError>
    decreases rem(s, k), 1nat,
{
    if k >= s.len() {
        Err(ParseError::NoPrefixParseFn { found: TokenType::Eof })
    } else if kind_at(s, base, k + 1) != TokenType::Lparen {
        Err(ParseError::UnexpectedToken { expected: TokenType::Lparen, found: kind_at(s, base, k + 1) })
    } else {
        match parse_expr(s, base, k + 2, Precedence::Lowest) {
            Err(x) => Err(x),
            Ok((cond, j)) => if kind_at(s, base, j + 1) != TokenType::Rparen {
                Err(
                    ParseError::UnexpectedToken {
                        expected: TokenType::Rparen,
                        found: kind_at(s, base, j + 1),
                    },
                )
            } else if kind_at(s, base, j + 2) != TokenType::Lbrace {
                Err(
                    ParseError::UnexpectedToken {
                        expected: TokenType::Lbrace,
                        found: kind_at(s, base, j + 2),
                    },
                )
            } else if j < k {
                Err(ParseError::NoPrefixParseFn { found: TokenType::Eof })
            } else {
                match parse_block(s, base, j + 2) {
                    Err(x) => Err(x),
                    Ok((cons, b)) => if kind_at(s, base, b + 1) != TokenType::Else {
                        Ok(
                            (
                                ExprModel::If {
                                    tok: token_at(s, base, k),
                                    cond: Box::new(cond),
                                    cons,
                                    alt: None,
                                },
                                b,
                            ),
                        )
                    } else if kind_at(s, base, b + 2) != TokenType::Lbrace {
                        Err(
                            ParseError::UnexpectedToken {
                                expected: TokenType::Lbrace,
                                found: kind_at(s, base, b + 2),
                            },
                        )
                    } else if b < k {
                        Err(ParseError::NoPrefixParseFn { found: TokenType::Eof })
                    } else {
                        match parse_block(s, base, b + 2) {
                            Err(x) => Err(x),
                            Ok((alt, b2)) => Ok(
                                (
                                    ExprModel::If {
                                        tok: token_at(s, base, k),
                                        cond: Box::new(cond),
                                        cons,
                                        alt: Some(alt),
                                    },
                                    b2,
                                ),
                            ),
                        }
                    },
                }
            },
        }
    }
}

/// A function literal; `k` is the `fn`.
pub open spec fn parse_func(s: Seq<char>, base: int, k: nat) -> Result<(ExprModel, nat), ParseError>
    decreases rem(s, k), 1nat,
{
    if k >= s.len() {
        Err(ParseError::NoPrefixParseFn { found: TokenType::Eof })
    } else if kind_at(s, base, k + 1) != TokenType::Lparen {
        Err(ParseError::UnexpectedToken { expected: TokenType::Lparen, found: kind_at(s, base, k + 1) })
    } else {
        match parse_params(s, base, k + 1) {
            Err(x) => Err(x),
            Ok((params, j)) => if kind_at(s, base, j + 1) != TokenType::Lbrace {
                Err(
                    ParseError::UnexpectedToken {
                        expected: TokenType::Lbrace,
                        found: kind_at(s, base, j + 1),
                    },
                )
            } else if j < k {
                Err(ParseError::NoPrefixParseFn { found: TokenType::Eof })
            } else {
                match parse_block(s, base, j + 1) {
                    Err(x) => Err(x),
                    Ok((body, b)) => Ok(
                        (ExprModel::Func { tok: token_at(s, base, k), params, body }, b),
                    ),
                }
            },
        }
    }
}

/// A parameter list; `k` is its opening parenthesis.
pub open spec fn parse_params(s: Seq<char>, base: int, k: nat) -> Result<
    (Seq<IdentModel>, nat),
    ParseError,
> {
    if kind_at(s, base, k + 1) == TokenType::Rparen {
        Ok((Seq::empty(), k + 1))
    } else if kind_at(s, base, k + 1) != TokenType::Ident {
        Err(ParseError::UnexpectedToken { expected: TokenType::Ident, found: kind_at(s, base, k + 1) })
    } else {
        parse_params_rest(s, base, k + 1, seq![ident_of(token_at(s, base, k + 1))])
    }
}

/// The rest of a parameter list, after the parameters `acc`, the last of which is at `j`.
pub open spec fn parse_params_rest(s: Seq<char>, base: int, j: nat, acc: Seq<IdentModel>) -> Result<
    (Seq<IdentModel>, nat),
    ParseError,
>
    decreases rem(s, j),
{
    if kind_at(s, base, j + 1) == TokenType::Comma {
        if kind_at(s, base, j + 2) != TokenType::Ident {
            Err(
                ParseError::UnexpectedToken {
                    expected: TokenType::Ident,
                    found: kind_at(s, base, j + 2),
                },
            )
        } else if j >= s.len() {
            Err(ParseError::NoPrefixParseFn { found: TokenType::Eof })
        } else {
            parse_params_rest(s, base, j + 2, acc.push(ident_of(token_at(s, base, j + 2))))
        }
    } else if kind_at(s, base, j + 1) == TokenType::Rparen {
        Ok((acc, j + 1))
    } else {
        Err(ParseError::UnexpectedToken { expected: TokenType::Rparen, found: kind_at(s, base, j + 1) })
    }
}

/// The operator or call at `k` applied to `left`.
pub open spec fn parse_infix(s: Seq<char>, base: int, left: ExprModel, k: nat) -> Result<
    (ExprModel, nat),
    ParseError,
>
    decreases rem(s, k), 1nat,
{
    let tok = token_at(s, base, k);
    if k >= s.len() {
        Err(ParseError::NoInfixParseFn { found: TokenType::Eof })
    } else if is_binary(tok.kind) {
        match parse_expr(s, base, k + 1, precedence_of(tok.kind)) {
            Err(x) => Err(x),
            Ok((right, e)) => Ok(
                (
                    ExprModel::Infix {
                        tok,
                        left: Box::new(left),
                        op: tok.text,
                        right: Box::new(right),
                    },
                    e,
                ),
            ),
        }
    } else if tok.kind == TokenType::Lparen {
        match parse_args(s, base, k) {
            Err(x) => Err(x),
            Ok((args, e)) => Ok((ExprModel::Call { tok, func: Box::new(left), args }, e)),
        }
    } else {
        Err(ParseError::NoInfixParseFn { found: tok.kind })
    }
}

/// The arguments of a call; `k` is the opening parenthesis.
pub open spec fn parse_args(s: Seq<char>, base: int, k: nat) -> Result<
    (Seq<ExprModel>, nat),
    ParseError,
>
    decreases rem(s, k), 0nat,
{
    if kind_at(s, base, k + 1) == TokenType::Rparen {
        Ok((Seq::empty(), k + 1))
    } else if k >= s.len() {
        Err(ParseError::NoPrefixParseFn { found: TokenType::Eof })
    } else {
        match parse_expr(s, base, k + 1, Precedence::Lowest) {
            Err(x) => Err(x),
            Ok((a, e)) => if e <= k {
                Err(ParseError::NoPrefixParseFn { found: TokenType::Eof })
            } else {
                parse_args_rest(s, base, seq![a], e)
            },
        }
    }
}

/// The rest of an argument list, after the arguments `acc`, the last of which ends at `e`.
pub open spec fn parse_args_rest(s: Seq<char>, base: int, acc: Seq<ExprModel>, e: nat) -> Result<
    (Seq<ExprModel>, nat),
    ParseError,
>
    decreases rem(s, e), 0nat,
{
    if kind_at(s, base, e + 1) == TokenType::Comma {
        if e >= s.len() {
            Err(ParseError::NoPrefixParseFn { found: TokenType::Eof })
        } else {
            match parse_expr(s, base, e + 2, Precedence::Lowest) {
                Err(x) => Err(x),
                Ok((a, e2)) => if e2 <= e {
                    Err(ParseError::NoPrefixParseFn { found: TokenType::Eof })
                } else {
                    parse_args_rest(s, base, acc.push(a), e2)
                },
            }
        }
    } else if kind_at(s, base, e + 1) == TokenType::Rparen {
        Ok((acc, e + 1))
    } else {
        Err(ParseError::UnexpectedToken { expected: TokenType::Rparen, found: kind_at(s, base, e + 1) })
    }
}

/// A block; `k` is its opening brace. It ends at the closing brace or at the end of input.
pub open spec fn parse_block(s: Seq<char>, base: int, k: nat) -> Result<(BlockModel, nat), ParseError>
    decreases rem(s, k), 0nat,
{
    if k >= s.len() {
        Err(ParseError::NoPrefixParseFn { found: TokenType::Eof })
    } else {
        match parse_block_rest(s, base, k + 1, Seq::empty()) {
            Err(x) => Err(x),
            Ok((stmts, e)) => Ok((BlockModel { tok: token_at(s, base, k), stmts }, e)),
        }
    }
}

/// The statements of a block from index `j`, after the statements `acc`.
pub open spec fn parse_block_rest(s: Seq<char>, base: int, j: nat, acc: Seq<StmtModel>) -> Result<
    (Seq<StmtModel>, nat),
    ParseError,
>
    decreases rem(s, j), 5nat,
{
    if kind_at(s, base, j) == TokenType::Rbrace || kind_at(s, base, j) == TokenType::Eof || j
        >= s.len() {
        Ok((acc, j))
    } else {
        match parse_stmt(s, base, j) {
            Err(x) => Err(x),
            Ok((st, e)) => if e < j {
                Err(ParseError::NoPrefixParseFn { found: TokenType::Eof })
            } else {
                parse_block_rest(s, base, e + 1, acc.push(st))
            },
        }
    }
}

/// The statement that starts at `k`.
pub open spec fn parse_stmt(s: Seq<char>, base: int, k: nat) -> Result<(StmtModel, nat), ParseError>
    decreases rem(s, k), 4nat,
{
    let tok = token_at(s, base, k);
    if k >= s.len() {
        Err(ParseError::NoPrefixParseFn { found: TokenType::Eof })
    } else if tok.kind == TokenType::Let {
        if kind_at(s, base, k + 1) != TokenType::Ident {
            Err(
                ParseError::UnexpectedToken {
                    expected: TokenType::Ident,
                    found: kind_at(s, base, k + 1),
                },
            )
        } else if kind_at(s, base, k + 2) != TokenType::Assign {
            Err(
                ParseError::UnexpectedToken {
                    expected: TokenType::Assign,
                    found: kind_at(s, base, k + 2),
                },
            )
        } else {
            match parse_expr(s, base, k + 3, Precedence::Lowest) {
                Err(x) => Err(x),
                Ok((value, e)) => Ok(
                    (
                        StmtModel::Let { tok, name: ident_of(token_at(s, base, k + 1)), value },
                        skip_semicolon(s, base, e),
                    ),
                ),
            }
        }
    } else if tok.kind == TokenType::Return {
        match parse_expr(s, base, k + 1, Precedence::Lowest) {
            Err(x) => Err(x),
            Ok((value, e)) => Ok((StmtModel::Return { tok, value }, skip_semicolon(s, base, e))),
        }
    } else {
        match parse_expr(s, base, k, Precedence::Lowest) {
            Err(x) => Err(x),
            Ok((expr, e)) => Ok((StmtModel::Expr { tok, expr }, skip_semicolon(s, base, e))),
        }
    }
}

/// The statements from index `k` to the end of input, after the statements `acc`.
pub open spec fn parse_stmts(s: Seq<char>, base: int, k: nat, acc: Seq<StmtModel>) -> Result<
    Seq<StmtModel>,
    ParseError,
>
    decreases rem(s, k),
{
    if kind_at(s, base, k) == TokenType::Eof || k >= s.len() {
        Ok(acc)
    } else {
        match parse_stmt(s, base, k) {
            Err(x) => Err(x),
            Ok((st, e)) => if e < k {
                Err(ParseError::NoPrefixParseFn { found: TokenType::Eof })
            } else {
                parse_stmts(s, base, e + 1, acc.push(st))
            },
        }
    }
}

/// The program that the whole source text `s` parses to, or the first error in it.
pub open spec fn parse_source(s: Seq<char>) -> Result<Seq<StmtModel>, ParseError> {
    parse_stmts(s, 0, 0, Seq::empty())
}

} // verus!

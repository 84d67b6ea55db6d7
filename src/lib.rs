mod ast;
mod eval;
mod grammar;
mod laws;
mod lexer;
mod parser;
mod token;

pub use ast::{
    block_text, expr_text, int_string, int_text, stmt_text, stmts_text, BlockModel,
    BlockStatement, Boolean, CallExpression, ExprModel, Expression, ExpressionStatement,
    FunctionLiteral, IdentModel, Identifier, IfExpression, InfixExpression, IntegerLiteral,
    LetStatement, Node, NodeType, PrefixExpression, Program, ReturnStatement, Statement, StmtModel,
};
pub use eval::{eval, Object};
pub use grammar::{
    parse_expr, parse_source, parse_stmt, parse_stmts, prec_rank, precedence_of, ParseError,
    Precedence,
};
pub use laws::{
    binds_as_tight, ident_expr, infix_of, is_descending_chain, is_ident_text, is_operator_text,
    in_op_fragment, left_chain, lemma_binary_grouping, lemma_binary_grouping_text,
    lemma_canonical_idempotent, lemma_descending_chain, lemma_group_needs_close,
    lemma_let_needs_name, lemma_scan_after_blank, lemma_scan_ident, lemma_scan_operator,
    lemma_scan_single, lparen_lexeme, op_tokens, paren_op, rparen_lexeme, spaced_operation,
};
pub use lexer::{
    kind_at, lemma_eof_from, lemma_eof_sticky, lemma_tokenization_total, next_lexeme, token_at,
    tokenize, Lexer,
};
pub use parser::{parse, Parser};
pub use token::{Lexeme, Token, TokenType};

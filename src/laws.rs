use vstd::prelude::*;
use crate::ast::{expr_text, stmt_text, stmts_text, ExprModel, StmtModel};
use crate::grammar::{
    ident_of, is_binary, parse_expr, parse_grouped, parse_infix, parse_infix_loop, parse_prefix,
    parse_source, parse_stmt, parse_stmts, prec_rank, precedence_of, ParseError, Precedence,
};
use crate::lexer::{
    is_letter, is_whitespace, is_word_char, keyword_kind, kind_at,
    lemma_next_lexeme, lexeme_kind,
    next_lexeme, pos_after, punct_kind, token_at, word_end,
};
use crate::parser::{lemma_live, lemma_prefix_cases};
use crate::token::{Lexeme, TokenType};

verus! {

pub open spec fn ident_expr(t: Lexeme) -> ExprModel {
    ExprModel::Ident(ident_of(t))
}

pub open spec fn infix_of(l: ExprModel, t: Lexeme, r: ExprModel) -> ExprModel {
    ExprModel::Infix { tok: t, left: Box::new(l), op: t.text, right: Box::new(r) }
}

/// The text of one binary operation as the canonical form writes it.
pub open spec fn paren_op(l: Seq<char>, op: Seq<char>, r: Seq<char>) -> Seq<char> {
    "("@ + l + " "@ + op + " "@ + r + ")"@
}

proof fn lemma_infix_text(l: ExprModel, t: Lexeme, r: ExprModel)
    ensures
        expr_text(infix_of(l, t, r)) == paren_op(expr_text(l), t.text, expr_text(r)),
{
}

/// Whether operator `o1` binds at least as tightly as operator `o2`.
pub open spec fn binds_as_tight(o1: TokenType, o2: TokenType) -> bool {
    prec_rank(precedence_of(o1)) >= prec_rank(precedence_of(o2))
}

/// Binary operators group by the precedence table, and operators of equal precedence group to
/// the left: the operands `a o1 b o2 c` parse as `(a o1 b) o2 c` when `o1` binds at least as
/// tightly as `o2`, and as `a o1 (b o2 c)` otherwise. The canonical text shows the grouping
/// with a pair of parentheses around each operation.
pub proof fn lemma_binary_grouping(s: Seq<char>, base: int, k: nat)
    requires
        0 <= base <= s.len(),
        kind_at(s, base, k) == TokenType::Ident,
        is_binary(kind_at(s, base, k + 1)),
        kind_at(s, base, k + 2) == TokenType::Ident,
        is_binary(kind_at(s, base, k + 3)),
        kind_at(s, base, k + 4) == TokenType::Ident,
        precedence_of(kind_at(s, base, k + 5)) == Precedence::Lowest,
    ensures
        ({
            let a = token_at(s, base, k);
            let o1 = token_at(s, base, k + 1);
            let b = token_at(s, base, k + 2);
            let o2 = token_at(s, base, k + 3);
            let c = token_at(s, base, k + 4);
            if binds_as_tight(o1.kind, o2.kind) {
                &&& parse_expr(s, base, k, Precedence::Lowest) == Ok::<(ExprModel, nat), ParseError>(
                    (infix_of(infix_of(ident_expr(a), o1, ident_expr(b)), o2, ident_expr(c)), k + 4),
                )
                &&& expr_text(infix_of(infix_of(ident_expr(a), o1, ident_expr(b)), o2, ident_expr(c)))
                    == paren_op(paren_op(a.text, o1.text, b.text), o2.text, c.text)
            } else {
                &&& parse_expr(s, base, k, Precedence::Lowest) == Ok::<(ExprModel, nat), ParseError>(
                    (infix_of(ident_expr(a), o1, infix_of(ident_expr(b), o2, ident_expr(c))), k + 4),
                )
                &&& expr_text(infix_of(ident_expr(a), o1, infix_of(ident_expr(b), o2, ident_expr(c))))
                    == paren_op(a.text, o1.text, paren_op(b.text, o2.text, c.text))
            }
        }),
{
    let a = token_at(s, base, k);
    let o1 = token_at(s, base, k + 1);
    let b = token_at(s, base, k + 2);
    let o2 = token_at(s, base, k + 3);
    let c = token_at(s, base, k + 4);
    let p1 = precedence_of(o1.kind);
    let p2 = precedence_of(o2.kind);
    let (ea, eb, ec) = (ident_expr(a), ident_expr(b), ident_expr(c));
    lemma_live(s, base, k);
    lemma_live(s, base, k + 1);
    lemma_live(s, base, k + 2);
    lemma_live(s, base, k + 3);
    lemma_live(s, base, k + 4);
    assert(parse_prefix(s, base, k) == Ok::<(ExprModel, nat), ParseError>((ea, k)));
    assert(parse_prefix(s, base, k + 2) == Ok::<(ExprModel, nat), ParseError>((eb, (k + 2) as nat)));
    assert(parse_prefix(s, base, k + 4) == Ok::<(ExprModel, nat), ParseError>((ec, (k + 4) as nat)));
    // `c` is the last operand at any precedence.
    assert(parse_infix_loop(s, base, ec, (k + 4) as nat, p2) == Ok::<(ExprModel, nat), ParseError>(
        (ec, (k + 4) as nat),
    ));
    assert(parse_expr(s, base, (k + 4) as nat, p2) == Ok::<(ExprModel, nat), ParseError>(
        (ec, (k + 4) as nat),
    ));
    let bc = infix_of(eb, o2, ec);
    assert(parse_infix(s, base, eb, (k + 3) as nat) == Ok::<(ExprModel, nat), ParseError>(
        (bc, (k + 4) as nat),
    ));
    if binds_as_tight(o1.kind, o2.kind) {
        assert(parse_infix_loop(s, base, eb, (k + 2) as nat, p1) == Ok::<(ExprModel, nat), ParseError>(
            (eb, (k + 2) as nat),
        ));
        assert(parse_expr(s, base, (k + 2) as nat, p1) == Ok::<(ExprModel, nat), ParseError>(
            (eb, (k + 2) as nat),
        ));
        let ab = infix_of(ea, o1, eb);
        assert(parse_infix(s, base, ea, k + 1) == Ok::<(ExprModel, nat), ParseError>(
            (ab, (k + 2) as nat),
        ));
        let abc = infix_of(ab, o2, ec);
        assert(parse_infix(s, base, ab, (k + 3) as nat) == Ok::<(ExprModel, nat), ParseError>(
            (abc, (k + 4) as nat),
        ));
        assert(parse_infix_loop(s, base, abc, (k + 4) as nat, Precedence::Lowest) == Ok::<
            (ExprModel, nat),
            ParseError,
        >((abc, (k + 4) as nat)));
        assert(parse_infix_loop(s, base, ab, (k + 2) as nat, Precedence::Lowest) == Ok::<
            (ExprModel, nat),
            ParseError,
        >((abc, (k + 4) as nat)));
        assert(parse_infix_loop(s, base, ea, k, Precedence::Lowest) == Ok::<(ExprModel, nat), ParseError>(
            (abc, (k + 4) as nat),
        ));
        lemma_infix_text(ea, o1, eb);
        lemma_infix_text(ab, o2, ec);
    } else {
        assert(parse_infix_loop(s, base, bc, (k + 4) as nat, p1) == Ok::<(ExprModel, nat), ParseError>(
            (bc, (k + 4) as nat),
        ));
        assert(parse_infix_loop(s, base, eb, (k + 2) as nat, p1) == Ok::<(ExprModel, nat), ParseError>(
            (bc, (k + 4) as nat),
        ));
        assert(parse_expr(s, base, (k + 2) as nat, p1) == Ok::<(ExprModel, nat), ParseError>(
            (bc, (k + 4) as nat),
        ));
        let abc = infix_of(ea, o1, bc);
        assert(parse_infix(s, base, ea, k + 1) == Ok::<(ExprModel, nat), ParseError>(
            (abc, (k + 4) as nat),
        ));
        assert(parse_infix_loop(s, base, abc, (k + 4) as nat, Precedence::Lowest) == Ok::<
            (ExprModel, nat),
            ParseError,
        >((abc, (k + 4) as nat)));
        assert(parse_infix_loop(s, base, ea, k, Precedence::Lowest) == Ok::<(ExprModel, nat), ParseError>(
            (abc, (k + 4) as nat),
        ));
        lemma_infix_text(eb, o2, ec);
        lemma_infix_text(ea, o1, bc);
    }
}

/// A `let` that is not followed by a name makes the whole program fail, with an error that
/// names the token found instead; no part of the program is returned.
pub proof fn lemma_let_needs_name(s: Seq<char>)
    requires
        kind_at(s, 0, 0) == TokenType::Let,
        kind_at(s, 0, 1) != TokenType::Ident,
    ensures
        parse_source(s) == Err::<Seq<StmtModel>, ParseError>(
            ParseError::UnexpectedToken { expected: TokenType::Ident, found: kind_at(s, 0, 1) },
        ),
{
    lemma_live(s, 0, 0);
    assert(parse_stmt(s, 0, 0) == Err::<(StmtModel, nat), ParseError>(
        ParseError::UnexpectedToken { expected: TokenType::Ident, found: kind_at(s, 0, 1) },
    ));
}

/// A parenthesis that opens a program and is never closed makes the whole program fail,
/// with an error that names the token found where `)` was required.
pub proof fn lemma_group_needs_close(s: Seq<char>, inner: ExprModel, j: nat)
    requires
        kind_at(s, 0, 0) == TokenType::Lparen,
        parse_expr(s, 0, 1, Precedence::Lowest) == Ok::<(ExprModel, nat), ParseError>((inner, j)),
        kind_at(s, 0, j + 1) != TokenType::Rparen,
    ensures
        parse_source(s) == Err::<Seq<StmtModel>, ParseError>(
            ParseError::UnexpectedToken { expected: TokenType::Rparen, found: kind_at(s, 0, j + 1) },
        ),
{
    let x = ParseError::UnexpectedToken { expected: TokenType::Rparen, found: kind_at(s, 0, j + 1) };
    lemma_live(s, 0, 0);
    lemma_prefix_cases(s, 0, 0);
    assert(parse_grouped(s, 0, 0) == Err::<(ExprModel, nat), ParseError>(x));
    assert(parse_expr(s, 0, 0, Precedence::Lowest) == Err::<(ExprModel, nat), ParseError>(x));
    assert(parse_stmt(s, 0, 0) == Err::<(StmtModel, nat), ParseError>(x));
}

/// The text of an identifier: a letter or `_` followed by letters and digits, and no keyword.
pub open spec fn is_ident_text(a: Seq<char>) -> bool {
    &&& a.len() > 0
    &&& is_letter(a[0])
    &&& forall|i: int| 1 <= i < a.len() ==> is_word_char(#[trigger] a[i])
    &&& keyword_kind(a) == TokenType::Ident
}

/// The text of a binary operator.
pub open spec fn is_operator_text(o: Seq<char>) -> bool {
    o == "+"@ || o == "-"@ || o == "*"@ || o == "/"@ || o == "<"@ || o == ">"@ || o == "=="@ || o
        == "!="@
}

proof fn lemma_word_run(t: Seq<char>, p: int, e: int)
    requires
        0 <= p <= e <= t.len(),
        forall|i: int| p <= i < e ==> is_word_char(#[trigger] t[i]),
        e == t.len() || !is_word_char(t[e]),
    ensures
        word_end(t, p) == e,
    decreases e - p,
{
    if p < e {
        lemma_word_run(t, p + 1, e);
    }
}

/// Scanning an identifier that is followed by a character that cannot continue it.
pub proof fn lemma_scan_ident(t: Seq<char>, p: int, a: Seq<char>)
    requires
        0 <= p,
        p + a.len() <= t.len(),
        is_ident_text(a),
        t.subrange(p, p + a.len()) == a,
        p + a.len() == t.len() || !is_word_char(t[p + a.len()]),
    ensures
        next_lexeme(t, p) == (Lexeme { kind: TokenType::Ident, text: a }, p + a.len()),
{
    reveal(next_lexeme);
    assert(t[p] == a[0]);
    assert(!is_whitespace(t[p]));
    assert forall|i: int| p + 1 <= i < p + a.len() implies is_word_char(#[trigger] t[i]) by {
        assert(t[i] == a[i - p]);
    }
    lemma_word_run(t, p + 1, p + a.len());
}

/// Scanning a one-character token `c` that is not part of a longer operator.
pub proof fn lemma_scan_single(t: Seq<char>, p: int, c: char)
    requires
        0 <= p < t.len(),
        t[p] == c,
        c == '(' || c == ')' || c == '+' || c == '-' || c == '*' || c == '/' || c == '<' || c
            == '>',
    ensures
        next_lexeme(t, p) == (Lexeme { kind: punct_kind(c), text: t.subrange(p, p + 1) }, p + 1),
{
    reveal(next_lexeme);
}

/// Scanning a binary operator that is followed by a blank.
pub proof fn lemma_scan_operator(t: Seq<char>, p: int, o: Seq<char>)
    requires
        0 <= p,
        p + o.len() < t.len(),
        is_operator_text(o),
        t.subrange(p, p + o.len()) == o,
        t[p + o.len()] == ' ',
    ensures
        next_lexeme(t, p) == (Lexeme { kind: lexeme_kind(o), text: o }, p + o.len()),
        is_binary(lexeme_kind(o)),
{
    reveal(next_lexeme);
    reveal_strlit("+");
    reveal_strlit("-");
    reveal_strlit("*");
    reveal_strlit("/");
    reveal_strlit("<");
    reveal_strlit(">");
    reveal_strlit("==");
    reveal_strlit("!=");
    assert(t[p] == o[0]);
    if o.len() == 2 {
        assert(t[p + 1] == o[1]);
    }
}

/// A single blank before a token is skipped.
pub proof fn lemma_scan_after_blank(t: Seq<char>, p: int)
    requires
        0 <= p,
        p + 1 < t.len(),
        t[p] == ' ',
        !is_whitespace(t[p + 1]),
    ensures
        next_lexeme(t, p) == next_lexeme(t, p + 1),
{
    reveal(next_lexeme);
}

/// The tree that `left`, ending at index `e`, becomes when the `n` operator and identifier
/// pairs after it are applied one after the other, each to everything before it.
pub open spec fn left_chain(s: Seq<char>, base: int, left: ExprModel, e: nat, n: nat) -> ExprModel
    decreases n,
{
    if n == 0 {
        left
    } else {
        left_chain(
            s,
            base,
            infix_of(left, token_at(s, base, e + 1), ident_expr(token_at(s, base, e + 2))),
            e + 2,
            (n - 1) as nat,
        )
    }
}

/// After index `e` come `n` pairs of a binary operator and an identifier, each operator
/// binding at least as tightly as the next one, and then a token that binds as no operator.
pub open spec fn is_descending_chain(s: Seq<char>, base: int, e: nat, n: nat) -> bool {
    &&& forall|i: nat|
        i < n ==> is_binary(#[trigger] kind_at(s, base, e + 1 + 2 * i)) && kind_at(
            s,
            base,
            e + 2 + 2 * i,
        ) == TokenType::Ident
    &&& forall|i: nat|
        i + 1 < n ==> binds_as_tight(
            #[trigger] kind_at(s, base, e + 1 + 2 * i),
            kind_at(s, base, e + 3 + 2 * i),
        )
    &&& precedence_of(kind_at(s, base, e + 1 + 2 * n)) == Precedence::Lowest
}

proof fn lemma_chain_loop(s: Seq<char>, base: int, left: ExprModel, e: nat, n: nat)
    requires
        0 <= base <= s.len(),
        is_descending_chain(s, base, e, n),
    ensures
        parse_infix_loop(s, base, left, e, Precedence::Lowest) == Ok::<(ExprModel, nat), ParseError>(
            (left_chain(s, base, left, e, n), e + 2 * n),
        ),
    decreases n,
{
    if n > 0 {
        assert(is_binary(kind_at(s, base, e + 1 + 2 * 0)));
        assert(kind_at(s, base, e + 2 + 2 * 0) == TokenType::Ident);
        let o = token_at(s, base, e + 1);
        let b = token_at(s, base, e + 2);
        let p = precedence_of(o.kind);
        lemma_live(s, base, e + 1);
        lemma_live(s, base, e + 2);
        assert(parse_prefix(s, base, e + 2) == Ok::<(ExprModel, nat), ParseError>(
            (ident_expr(b), e + 2),
        ));
        if n > 1 {
            assert(binds_as_tight(kind_at(s, base, e + 1 + 2 * 0), kind_at(s, base, e + 3 + 2 * 0)));
        } else {
            assert(kind_at(s, base, e + 3) == kind_at(s, base, e + 1 + 2 * n));
        }
        assert(parse_infix_loop(s, base, ident_expr(b), e + 2, p) == Ok::<(ExprModel, nat), ParseError>(
            (ident_expr(b), e + 2),
        ));
        assert(parse_expr(s, base, e + 2, p) == Ok::<(ExprModel, nat), ParseError>(
            (ident_expr(b), e + 2),
        ));
        let next = infix_of(left, o, ident_expr(b));
        assert(parse_infix(s, base, left, e + 1) == Ok::<(ExprModel, nat), ParseError>(
            (next, e + 2),
        ));
        let m = (n - 1) as nat;
        assert forall|i: nat| i < m implies is_binary(
            #[trigger] kind_at(s, base, (e + 2) + 1 + 2 * i),
        ) && kind_at(s, base, (e + 2) + 2 + 2 * i) == TokenType::Ident by {
            assert(is_binary(kind_at(s, base, e + 1 + 2 * (i + 1))));
            assert(kind_at(s, base, e + 2 + 2 * (i + 1)) == TokenType::Ident);
        }
        assert forall|i: nat| i + 1 < m implies binds_as_tight(
            #[trigger] kind_at(s, base, (e + 2) + 1 + 2 * i),
            kind_at(s, base, (e + 2) + 3 + 2 * i),
        ) by {
            assert(binds_as_tight(
                kind_at(s, base, e + 1 + 2 * (i + 1)),
                kind_at(s, base, e + 3 + 2 * (i + 1)),
            ));
        }
        assert(kind_at(s, base, (e + 2) + 1 + 2 * m) == kind_at(s, base, e + 1 + 2 * n));
        lemma_chain_loop(s, base, next, e + 2, m);
    }
}

/// Binary operators of non-increasing precedence group to the left, however long the chain:
/// `a o1 b o2 c ... on z`, where each operator binds at least as tightly as the next one,
/// parses as `((a o1 b) o2 c) ... on z`.
pub proof fn lemma_descending_chain(s: Seq<char>, base: int, k: nat, n: nat)
    requires
        0 <= base <= s.len(),
        kind_at(s, base, k) == TokenType::Ident,
        is_descending_chain(s, base, k, n),
    ensures
        parse_expr(s, base, k, Precedence::Lowest) == Ok::<(ExprModel, nat), ParseError>(
            (left_chain(s, base, ident_expr(token_at(s, base, k)), k, n), k + 2 * n),
        ),
{
    lemma_live(s, base, k);
    assert(parse_prefix(s, base, k) == Ok::<(ExprModel, nat), ParseError>(
        (ident_expr(token_at(s, base, k)), k),
    ));
    lemma_chain_loop(s, base, ident_expr(token_at(s, base, k)), k, n);
}

/// Five operands written with single blanks between them: `a o1 b o2 c`.
pub open spec fn spaced_operation(
    a: Seq<char>,
    o1: Seq<char>,
    b: Seq<char>,
    o2: Seq<char>,
    c: Seq<char>,
) -> Seq<char> {
    a + " "@ + o1 + " "@ + b + " "@ + o2 + " "@ + c
}

/// The grouping law on source text: the program `a o1 b o2 c`, with identifiers `a`, `b`, `c`
/// and binary operators `o1`, `o2`, parses, and its canonical text is `((a o1 b) o2 c)` when
/// `o1` binds at least as tightly as `o2`, and `(a o1 (b o2 c))` otherwise.
pub proof fn lemma_binary_grouping_text(
    a: Seq<char>,
    o1: Seq<char>,
    b: Seq<char>,
    o2: Seq<char>,
    c: Seq<char>,
)
    requires
        is_ident_text(a),
        is_ident_text(b),
        is_ident_text(c),
        is_operator_text(o1),
        is_operator_text(o2),
    ensures
        parse_source(spaced_operation(a, o1, b, o2, c)) is Ok,
        stmts_text(parse_source(spaced_operation(a, o1, b, o2, c))->Ok_0) == if binds_as_tight(
            lexeme_kind(o1),
            lexeme_kind(o2),
        ) {
            paren_op(paren_op(a, o1, b), o2, c)
        } else {
            paren_op(a, o1, paren_op(b, o2, c))
        },
{
    let t = spaced_operation(a, o1, b, o2, c);
    let (na, n1, nb, n2, nc) = (a.len() as int, o1.len() as int, b.len() as int, o2.len() as int,
    c.len() as int);
    reveal_strlit(" ");
    reveal_strlit("+");
    reveal_strlit("-");
    reveal_strlit("*");
    reveal_strlit("/");
    reveal_strlit("<");
    reveal_strlit(">");
    reveal_strlit("==");
    reveal_strlit("!=");
    let pb = na + 1 + n1 + 1;
    let pc = pb + nb + 1 + n2 + 1;
    assert(t.len() == pc + nc);
    assert(t.subrange(0, na) =~= a);
    assert(t[na] == ' ');
    assert(t.subrange(na + 1, na + 1 + n1) =~= o1);
    assert(t[na + 1 + n1] == ' ');
    assert(t.subrange(pb, pb + nb) =~= b);
    assert(t[pb + nb] == ' ');
    assert(t.subrange(pb + nb + 1, pb + nb + 1 + n2) =~= o2);
    assert(t[pb + nb + 1 + n2] == ' ');
    assert(t.subrange(pc, pc + nc) =~= c);
    assert(t[na + 1] == o1[0]);
    assert(t[pb] == b[0]);
    assert(t[pb + nb + 1] == o2[0]);
    assert(t[pc] == c[0]);
    lemma_scan_ident(t, 0, a);
    lemma_scan_after_blank(t, na);
    lemma_scan_operator(t, na + 1, o1);
    lemma_scan_after_blank(t, na + 1 + n1);
    lemma_scan_ident(t, pb, b);
    lemma_scan_after_blank(t, pb + nb);
    lemma_scan_operator(t, pb + nb + 1, o2);
    lemma_scan_after_blank(t, pb + nb + 1 + n2);
    lemma_scan_ident(t, pc, c);
    lemma_next_lexeme(t, t.len() as int);
    reveal(token_at);
    assert(pos_after(t, 0, 1) == na);
    assert(pos_after(t, 0, 2) == na + 1 + n1);
    assert(pos_after(t, 0, 3) == pb + nb);
    assert(pos_after(t, 0, 4) == pb + nb + 1 + n2);
    assert(pos_after(t, 0, 5) == t.len());
    let ta = token_at(t, 0, 0);
    assert(ta == Lexeme { kind: TokenType::Ident, text: a });
    assert(token_at(t, 0, 1) == Lexeme { kind: lexeme_kind(o1), text: o1 });
    assert(token_at(t, 0, 2) == Lexeme { kind: TokenType::Ident, text: b });
    assert(token_at(t, 0, 3) == Lexeme { kind: lexeme_kind(o2), text: o2 });
    assert(token_at(t, 0, 4) == Lexeme { kind: TokenType::Ident, text: c });
    assert(kind_at(t, 0, 5) == TokenType::Eof);
    lemma_binary_grouping(t, 0, 0);
    let e = parse_expr(t, 0, 0, Precedence::Lowest)->Ok_0.0;
    let st = StmtModel::Expr { tok: ta, expr: e };
    lemma_live(t, 0, 0);
    assert(parse_stmt(t, 0, 0) == Ok::<(StmtModel, nat), ParseError>((st, 4nat)));
    assert(parse_stmts(t, 0, 5, seq![st]) == Ok::<Seq<StmtModel>, ParseError>(seq![st]));
    assert(parse_stmts(t, 0, 0, Seq::empty()) == Ok::<Seq<StmtModel>, ParseError>(seq![st]));
    assert(seq![st].subrange(0, 0) =~= Seq::<StmtModel>::empty());
    assert(stmts_text(Seq::<StmtModel>::empty()) == Seq::<char>::empty());
    assert(stmt_text(st) == expr_text(e));
    assert(stmts_text(seq![st]) == stmts_text(Seq::<StmtModel>::empty()) + stmt_text(st));
    assert(stmts_text(seq![st]) =~= expr_text(e));
}

pub open spec fn lparen_lexeme() -> Lexeme {
    Lexeme { kind: TokenType::Lparen, text: "("@ }
}

pub open spec fn rparen_lexeme() -> Lexeme {
    Lexeme { kind: TokenType::Rparen, text: ")"@ }
}

/// Trees made of identifiers and binary operations, each node carrying the token that the
/// lexer gives its text.
pub open spec fn in_op_fragment(e: ExprModel) -> bool
    decreases e,
{
    match e {
        ExprModel::Ident(i) => is_ident_text(i.name) && i.tok == Lexeme {
            kind: TokenType::Ident,
            text: i.name,
        },
        ExprModel::Infix { tok, left, op, right } => is_operator_text(op) && tok == Lexeme {
            kind: lexeme_kind(op),
            text: op,
        } && in_op_fragment(*left) && in_op_fragment(*right),
        _ => false,
    }
}

/// The tokens of the canonical text of a tree of the fragment.
pub open spec fn op_tokens(e: ExprModel) -> Seq<Lexeme>
    decreases e,
{
    match e {
        ExprModel::Ident(i) => seq![i.tok],
        ExprModel::Infix { tok, left, right, .. } => seq![lparen_lexeme()] + op_tokens(*left)
            + seq![tok] + op_tokens(*right) + seq![rparen_lexeme()],
        _ => Seq::empty(),
    }
}

proof fn lemma_op_tokens_shape(e: ExprModel)
    requires
        in_op_fragment(e),
    ensures
        op_tokens(e).len() >= 1,
        forall|j: int|
            0 <= j < op_tokens(e).len() ==> (#[trigger] op_tokens(e)[j]).kind == TokenType::Ident
                || op_tokens(e)[j].kind == TokenType::Lparen || op_tokens(e)[j].kind
                == TokenType::Rparen || is_binary(op_tokens(e)[j].kind),
        (op_tokens(e)[0].kind == TokenType::Ident || op_tokens(e)[0].kind == TokenType::Lparen),
    decreases e,
{
    reveal_strlit("+");
    reveal_strlit("-");
    reveal_strlit("*");
    reveal_strlit("/");
    reveal_strlit("<");
    reveal_strlit(">");
    reveal_strlit("==");
    reveal_strlit("!=");
    match e {
        ExprModel::Infix { tok, left, right, .. } => {
            lemma_op_tokens_shape(*left);
            lemma_op_tokens_shape(*right);
            let t = op_tokens(e);
            let (nl, nr) = (op_tokens(*left).len() as int, op_tokens(*right).len() as int);
            assert forall|j: int| 0 <= j < t.len() implies (#[trigger] t[j]).kind == TokenType::Ident
                || t[j].kind == TokenType::Lparen || t[j].kind == TokenType::Rparen || is_binary(
                t[j].kind,
            ) by {
                if 1 <= j < 1 + nl {
                    assert(t[j] == op_tokens(*left)[j - 1]);
                } else if 2 + nl <= j < 2 + nl + nr {
                    assert(t[j] == op_tokens(*right)[j - 2 - nl]);
                }
            }
        },
        _ => {},
    }
}

/// Scanning from token `j0` on is scanning from the position reached after `j0` tokens.
proof fn lemma_pos_shift(s: Seq<char>, p: int, j0: nat, j: nat)
    ensures
        pos_after(s, p, j0 + j) == pos_after(s, pos_after(s, p, j0), j),
    decreases j,
{
    if j > 0 {
        lemma_pos_shift(s, p, j0, (j - 1) as nat);
        assert(pos_after(s, p, j0 + j) == next_lexeme(s, pos_after(s, p, (j0 + j - 1) as nat)).1);
    }
}

/// Scanning from a blank that precedes a token gives the same tokens as scanning from it.
proof fn lemma_blank_shift(s: Seq<char>, b: int, j: nat)
    requires
        next_lexeme(s, b) == next_lexeme(s, b + 1),
    ensures
        j >= 1 ==> pos_after(s, b, j) == pos_after(s, b + 1, j),
        token_at(s, b, j) == token_at(s, b + 1, j),
    decreases j,
{
    reveal(token_at);
    assert(pos_after(s, b, 0) == b);
    assert(pos_after(s, b + 1, 0) == b + 1);
    if j == 1 {
        assert(pos_after(s, b, 1) == next_lexeme(s, pos_after(s, b, 0)).1);
        assert(pos_after(s, b + 1, 1) == next_lexeme(s, pos_after(s, b + 1, 0)).1);
    } else if j > 1 {
        lemma_blank_shift(s, b, (j - 1) as nat);
        assert(pos_after(s, b, j) == next_lexeme(s, pos_after(s, b, (j - 1) as nat)).1);
        assert(pos_after(s, b + 1, j) == next_lexeme(s, pos_after(s, b + 1, (j - 1) as nat)).1);
    }
}

/// Where each part of `(l op r)` stands.
proof fn lemma_paren_layout(l: Seq<char>, op: Seq<char>, r: Seq<char>)
    ensures
        ({
            let x = paren_op(l, op, r);
            &&& x.len() == 4 + l.len() + op.len() + r.len()
            &&& x[0] == '('
            &&& forall|i: int| 0 <= i < l.len() ==> x[1 + i] == l[i]
            &&& x[1 + l.len() as int] == ' '
            &&& forall|i: int| 0 <= i < op.len() ==> x[2 + l.len() + i] == op[i]
            &&& x[2 + l.len() + op.len() as int] == ' '
            &&& forall|i: int| 0 <= i < r.len() ==> x[3 + l.len() + op.len() + i] == r[i]
            &&& x[3 + l.len() + op.len() + r.len() as int] == ')'
        }),
{
    reveal_strlit("(");
    reveal_strlit(")");
    reveal_strlit(" ");
    let x1 = "("@ + l;
    let x2 = x1 + " "@;
    let x3 = x2 + op;
    let x4 = x3 + " "@;
    let x5 = x4 + r;
    let x = x5 + ")"@;
    assert(x == paren_op(l, op, r));
    assert forall|i: int| 0 <= i < x5.len() implies x[i] == x5[i] by {}
    assert forall|i: int| 0 <= i < x4.len() implies x5[i] == x4[i] by {}
    assert forall|i: int| 0 <= i < x3.len() implies x4[i] == x3[i] by {}
    assert forall|i: int| 0 <= i < x2.len() implies x3[i] == x2[i] by {}
    assert forall|i: int| 0 <= i < x1.len() implies x2[i] == x1[i] by {}
    assert(x1[0] == '(');
    assert forall|i: int| 0 <= i < l.len() implies x[1 + i] == l[i] by {
        assert(x1[1 + i] == l[i]);
    }
    assert(x2[x1.len() as int] == ' ');
    assert forall|i: int| 0 <= i < op.len() implies x[2 + l.len() + i] == op[i] by {
        assert(x3[x2.len() + i] == op[i]);
    }
    assert(x4[x3.len() as int] == ' ');
    assert forall|i: int| 0 <= i < r.len() implies x[3 + l.len() + op.len() + i] == r[i] by {
        assert(x5[x4.len() + i] == r[i]);
    }
    assert(x[x5.len() as int] == ')');
}

/// The canonical text of a tree of the fragment starts with a letter, `_` or `(`.
proof fn lemma_text_start(e: ExprModel)
    requires
        in_op_fragment(e),
    ensures
        expr_text(e).len() > 0,
        is_letter(expr_text(e)[0]) || expr_text(e)[0] == '(',
{
    match e {
        ExprModel::Infix { tok, left, op, right } => {
            lemma_infix_text(*left, tok, *right);
            lemma_paren_layout(expr_text(*left), op, expr_text(*right));
        },
        _ => {},
    }
}

/// The canonical text of a tree of the fragment scans to its tokens.
proof fn lemma_scan_expr(s: Seq<char>, p: int, e: ExprModel)
    requires
        in_op_fragment(e),
        0 <= p,
        p + expr_text(e).len() <= s.len(),
        s.subrange(p, p + expr_text(e).len()) == expr_text(e),
        p + expr_text(e).len() == s.len() || !is_word_char(s[p + expr_text(e).len()]),
    ensures
        forall|j: nat| j < op_tokens(e).len() ==> #[trigger] token_at(s, p, j) == op_tokens(e)[j as int],
        pos_after(s, p, op_tokens(e).len()) == p + expr_text(e).len(),
    decreases e,
{
    reveal_strlit("(");
    reveal_strlit(")");
    reveal_strlit(" ");
    match e {
        ExprModel::Ident(i) => {
            lemma_scan_ident(s, p, i.name);
            reveal(token_at);
            assert(pos_after(s, p, 0) == p);
            assert(pos_after(s, p, 1) == next_lexeme(s, pos_after(s, p, 0)).1);
            assert(pos_after(s, p, 1) == p + expr_text(e).len());
        },
        ExprModel::Infix { tok, left, op, right } => {
            let (l, r) = (*left, *right);
            let (xl, xr) = (expr_text(l), expr_text(r));
            let x = expr_text(e);
            lemma_infix_text(l, tok, r);
            assert(x == paren_op(xl, op, xr));
            reveal_strlit("+");
            reveal_strlit("-");
            reveal_strlit("*");
            reveal_strlit("/");
            reveal_strlit("<");
            reveal_strlit(">");
            reveal_strlit("==");
            reveal_strlit("!=");
            assert(1 <= op.len() <= 2);
            assert forall|i: int| 0 <= i < x.len() implies s[p + i] == x[i] by {
                assert(s.subrange(p, p + x.len())[i] == s[p + i]);
            }
            assert(x.len() == 4 + xl.len() + op.len() + xr.len());
            let (tl, tr) = (op_tokens(l), op_tokens(r));
            let (nl, nr) = (tl.len(), tr.len());
            lemma_op_tokens_shape(l);
            lemma_op_tokens_shape(r);
            let b1 = p + 1 + xl.len();
            let b2 = b1 + 1 + op.len();
            lemma_paren_layout(xl, op, xr);
            assert forall|i: int| 0 <= i < xl.len() implies s[p + 1 + i] == xl[i] by {
                assert(s[p + 1 + i] == x[1 + i]);
            }
            assert forall|i: int| 0 <= i < op.len() implies s[b1 + 1 + i] == op[i] by {
                assert(s[b1 + 1 + i] == x[2 + xl.len() + i]);
            }
            assert forall|i: int| 0 <= i < xr.len() implies s[b2 + 1 + i] == xr[i] by {
                assert(s[b2 + 1 + i] == x[3 + xl.len() + op.len() + i]);
            }
            assert(s[p] == x[0]);
            assert(s[b1] == x[1 + xl.len() as int]);
            assert(s[b1 + 1 + op.len()] == x[2 + xl.len() + op.len() as int]);
            assert(s[b2 + 1 + xr.len()] == x[3 + xl.len() + op.len() + xr.len() as int]);
            assert(s.subrange(p + 1, p + 1 + xl.len()) =~= xl);
            assert(s[b1] == ' ');
            assert(s.subrange(b1 + 1, b1 + 1 + op.len()) =~= op);
            assert(s[b1 + 1 + op.len()] == ' ');
            assert(s.subrange(b2 + 1, b2 + 1 + xr.len()) =~= xr);
            assert(s[b2 + 1 + xr.len()] == ')');
            assert(s[b1 + 1] == op[0]);
            lemma_op_tokens_shape(r);
            // the first character of `xr` is a letter or `(`
            lemma_text_start(r);
            assert(s[b2 + 1] == xr[0]);
            lemma_scan_single(s, p, '(');
            assert(s.subrange(p, p + 1) =~= "("@);
            lemma_scan_expr(s, p + 1, l);
            lemma_scan_after_blank(s, b1);
            lemma_scan_operator(s, b1 + 1, op);
            lemma_scan_after_blank(s, b2);
            lemma_scan_expr(s, b2 + 1, r);
            lemma_scan_single(s, b2 + 1 + xr.len(), ')');
            assert(s.subrange(b2 + 1 + xr.len(), b2 + 2 + xr.len()) =~= ")"@);
            reveal(token_at);
            assert(pos_after(s, p, 0) == p);
            assert(pos_after(s, p, 1) == next_lexeme(s, pos_after(s, p, 0)).1);
            assert(pos_after(s, p, 1) == p + 1);
            lemma_pos_shift(s, p, 1, nl);
            assert(pos_after(s, p, 1 + nl) == b1);
            assert(pos_after(s, p, 2 + nl) == b2);
            lemma_pos_shift(s, p, 2 + nl, nr);
            lemma_blank_shift(s, b2, nr);
            assert(pos_after(s, p, 2 + nl + nr) == b2 + 1 + xr.len());
            assert(pos_after(s, p, 3 + nl + nr) == p + x.len());
            let t = op_tokens(e);
            assert forall|j: nat| j < t.len() implies #[trigger] token_at(s, p, j) == t[j as int] by {
                if j == 0 {
                } else if j < 1 + nl {
                    lemma_pos_shift(s, p, 1, (j - 1) as nat);
                    assert(token_at(s, p + 1, (j - 1) as nat) == tl[j - 1]);
                    assert(t[j as int] == tl[j - 1]);
                } else if j == 1 + nl {
                    assert(t[j as int] == tok);
                } else if j < 2 + nl + nr {
                    let jj = (j - 2 - nl) as nat;
                    lemma_pos_shift(s, p, 2 + nl, jj);
                    lemma_blank_shift(s, b2, jj);
                    assert(token_at(s, b2 + 1, jj) == tr[jj as int]);
                    assert(t[j as int] == tr[jj as int]);
                } else {
                    assert(t[j as int] == rparen_lexeme());
                }
            }
        },
        _ => {},
    }
}

proof fn lemma_operator_binary(o: Seq<char>)
    requires
        is_operator_text(o),
    ensures
        is_binary(lexeme_kind(o)),
{
    reveal_strlit("+");
    reveal_strlit("-");
    reveal_strlit("*");
    reveal_strlit("/");
    reveal_strlit("<");
    reveal_strlit(">");
    reveal_strlit("==");
    reveal_strlit("!=");
}

/// The tokens of a tree of the fragment parse back to the tree.
proof fn lemma_parse_fragment(s: Seq<char>, base: int, k: nat, e: ExprModel)
    requires
        0 <= base <= s.len(),
        in_op_fragment(e),
        forall|j: nat| j < op_tokens(e).len() ==> #[trigger] token_at(s, base, k + j) == op_tokens(
            e,
        )[j as int],
    ensures
        parse_prefix(s, base, k) == Ok::<(ExprModel, nat), ParseError>(
            (e, (k + op_tokens(e).len() - 1) as nat),
        ),
    decreases e,
{
    lemma_op_tokens_shape(e);
    assert(token_at(s, base, k + 0) == op_tokens(e)[0]);
    lemma_live(s, base, k);
    match e {
        ExprModel::Ident(i) => {},
        ExprModel::Infix { tok, left, op, right } => {
            let (l, r) = (*left, *right);
            let t = op_tokens(e);
            let (tl, tr) = (op_tokens(l), op_tokens(r));
            let (nl, nr) = (tl.len(), tr.len());
            lemma_op_tokens_shape(l);
            lemma_op_tokens_shape(r);
            lemma_operator_binary(op);
            assert forall|j: nat| j < nl implies #[trigger] token_at(s, base, (k + 1) + j) == tl[j as int] by {
                assert(token_at(s, base, k + (1 + j)) == t[(1 + j) as int]);
            }
            assert forall|j: nat| j < nr implies #[trigger] token_at(s, base, (k + 2 + nl) + j)
                == tr[j as int] by {
                assert(token_at(s, base, k + (2 + nl + j)) == t[(2 + nl + j) as int]);
            }
            assert(token_at(s, base, k + (1 + nl)) == t[(1 + nl) as int]);
            assert(token_at(s, base, k + (2 + nl + nr)) == t[(2 + nl + nr) as int]);
            assert(token_at(s, base, (k + 2 + nl) + 0) == tr[0]);
            let ol = (k + 1 + nl) as nat;
            let el = (k + nl) as nat;
            let er = (k + 1 + nl + nr) as nat;
            assert(kind_at(s, base, ol) == lexeme_kind(op));
            assert(kind_at(s, base, er + 1) == TokenType::Rparen);
            lemma_live(s, base, ol);
            lemma_live(s, base, (k + 2 + nl) as nat);
            lemma_parse_fragment(s, base, k + 1, l);
            lemma_parse_fragment(s, base, (k + 2 + nl) as nat, r);
            let p = precedence_of(lexeme_kind(op));
            assert(parse_infix_loop(s, base, r, er, p) == Ok::<(ExprModel, nat), ParseError>((r, er)));
            assert(parse_expr(s, base, (k + 2 + nl) as nat, p) == Ok::<(ExprModel, nat), ParseError>(
                (r, er),
            ));
            assert(parse_infix(s, base, l, ol) == Ok::<(ExprModel, nat), ParseError>((e, er)));
            assert(parse_infix_loop(s, base, e, er, Precedence::Lowest) == Ok::<
                (ExprModel, nat),
                ParseError,
            >((e, er)));
            assert(parse_infix_loop(s, base, l, el, Precedence::Lowest) == Ok::<
                (ExprModel, nat),
                ParseError,
            >((e, er)));
            assert(parse_expr(s, base, k + 1, Precedence::Lowest) == Ok::<(ExprModel, nat), ParseError>(
                (e, er),
            ));
            assert(parse_grouped(s, base, k) == Ok::<(ExprModel, nat), ParseError>((e, er + 1)));
            lemma_prefix_cases(s, base, k);
        },
        _ => {},
    }
}

/// Canonical form is idempotent on every program that parses to one expression statement made
/// of identifiers and binary operations: the canonical text parses again, to a program with
/// the same canonical text.
pub proof fn lemma_canonical_idempotent(s: Seq<char>)
    requires
        parse_source(s) is Ok,
        parse_source(s)->Ok_0.len() == 1,
        parse_source(s)->Ok_0[0] is Expr,
        in_op_fragment(parse_source(s)->Ok_0[0]->Expr_expr),
    ensures
        parse_source(stmts_text(parse_source(s)->Ok_0)) is Ok,
        stmts_text(parse_source(stmts_text(parse_source(s)->Ok_0))->Ok_0) == stmts_text(
            parse_source(s)->Ok_0,
        ),
{
    let prog = parse_source(s)->Ok_0;
    let e = prog[0]->Expr_expr;
    assert(prog =~= seq![prog[0]]);
    assert(seq![prog[0]].subrange(0, 0) =~= Seq::<StmtModel>::empty());
    assert(stmts_text(Seq::<StmtModel>::empty()) == Seq::<char>::empty());
    assert(stmts_text(prog) == stmts_text(Seq::<StmtModel>::empty()) + stmt_text(prog[0]));
    assert(stmts_text(prog) =~= expr_text(e));
    let c = expr_text(e);
    assert(c.subrange(0, c.len() as int) =~= c);
    lemma_scan_expr(c, 0, e);
    let t = op_tokens(e);
    let n = t.len();
    lemma_op_tokens_shape(e);
    lemma_next_lexeme(c, c.len() as int);
    reveal(token_at);
    assert(kind_at(c, 0, n) == TokenType::Eof);
    assert forall|j: nat| j < n implies #[trigger] token_at(c, 0, 0 + j) == t[j as int] by {
        assert(token_at(c, 0, j) == t[j as int]);
    }
    lemma_parse_fragment(c, 0, 0, e);
    assert(token_at(c, 0, 0) == t[0]);
    lemma_live(c, 0, 0);
    let last = (n - 1) as nat;
    assert(parse_infix_loop(c, 0, e, last, Precedence::Lowest) == Ok::<(ExprModel, nat), ParseError>(
        (e, last),
    ));
    assert(parse_expr(c, 0, 0, Precedence::Lowest) == Ok::<(ExprModel, nat), ParseError>((e, last)));
    let st = StmtModel::Expr { tok: token_at(c, 0, 0), expr: e };
    assert(parse_stmt(c, 0, 0) == Ok::<(StmtModel, nat), ParseError>((st, last)));
    assert(parse_stmts(c, 0, n, seq![st]) == Ok::<Seq<StmtModel>, ParseError>(seq![st]));
    assert(parse_stmts(c, 0, 0, Seq::empty()) == Ok::<Seq<StmtModel>, ParseError>(seq![st]));
    assert(seq![st].subrange(0, 0) =~= Seq::<StmtModel>::empty());
    assert(stmt_text(st) == expr_text(e));
    assert(stmts_text(seq![st]) == stmts_text(Seq::<StmtModel>::empty()) + stmt_text(st));
    assert(stmts_text(seq![st]) =~= c);
}

} // verus!

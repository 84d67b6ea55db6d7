use vstd::prelude::*;
use vstd::string::StringExecFns;
use crate::token::{Lexeme, Token, TokenType};

verus! {

broadcast use vstd::std_specs::vec::axiom_vec_index_decreases;

// ---------------------------------------------------------------------------------------------
// The mathematical model of a syntax tree.
// ---------------------------------------------------------------------------------------------

/// An identifier: its token and its name.
pub struct IdentModel {
    pub tok: Lexeme,
    pub name: Seq<char>,
}

/// A block: its opening token and its statements.
pub struct BlockModel {
    pub tok: Lexeme,
    pub stmts: Seq<StmtModel>,
}

pub enum ExprModel {
    Ident(IdentModel),
    Int { tok: Lexeme, value: i64 },
    Prefix { tok: Lexeme, op: Seq<char>, right: Box<ExprModel> },
    Infix { tok: Lexeme, left: Box<ExprModel>, op: Seq<char>, right: Box<ExprModel> },
    Bool { tok: Lexeme, truth: bool },
    If { tok: Lexeme, cond: Box<ExprModel>, cons: BlockModel, alt: Option<BlockModel> },
    Func { tok: Lexeme, params: Seq<IdentModel>, body: BlockModel },
    Call { tok: Lexeme, func: Box<ExprModel>, args: Seq<ExprModel> },
}

pub enum StmtModel {
    Let { tok: Lexeme, name: IdentModel, value: ExprModel },
    Return { tok: Lexeme, value: ExprModel },
    Expr { tok: Lexeme, expr: ExprModel },
}

// ---------------------------------------------------------------------------------------------
// Canonical text of a tree.
// ---------------------------------------------------------------------------------------------

pub open spec fn digit_text(d: int) -> Seq<char> {
    if d == 0 {
        "0"@
    } else if d == 1 {
        "1"@
    } else if d == 2 {
        "2"@
    } else if d == 3 {
        "3"@
    } else if d == 4 {
        "4"@
    } else if d == 5 {
        "5"@
    } else if d == 6 {
        "6"@
    } else if d == 7 {
        "7"@
    } else if d == 8 {
        "8"@
    } else {
        "9"@
    }
}

/// Decimal digits of a natural number, without leading zeros.
pub open spec fn nat_text(n: nat) -> Seq<char>
    decreases n,
{
    if n < 10 {
        digit_text(n as int)
    } else {
        nat_text(n / 10) + digit_text((n % 10) as int)
    }
}

/// Decimal text of an integer, with a leading `-` when it is negative.
pub open spec fn int_text(v: int) -> Seq<char> {
    if v < 0 {
        "-"@ + nat_text((-v) as nat)
    } else {
        nat_text(v as nat)
    }
}

/// Items' texts joined with `", "`.
pub open spec fn names_text(ps: Seq<IdentModel>) -> Seq<char>
    decreases ps.len(),
{
    if ps.len() == 0 {
        Seq::empty()
    } else if ps.len() == 1 {
        ps[0].name
    } else {
        names_text(ps.subrange(0, ps.len() - 1)) + ", "@ + ps[ps.len() - 1].name
    }
}

/// Canonical, fully parenthesized text of an expression.
pub open spec fn expr_text(e: ExprModel) -> Seq<char>
    decreases e, 0int,
{
    match e {
        ExprModel::Ident(i) => i.name,
        ExprModel::Int { value, .. } => int_text(value as int),
        ExprModel::Prefix { op, right, .. } => "("@ + op + expr_text(*right) + ")"@,
        ExprModel::Infix { left, op, right, .. } => "("@ + expr_text(*left) + " "@ + op + " "@
            + expr_text(*right) + ")"@,
        ExprModel::Bool { truth, .. } => if truth {
            "true"@
        } else {
            "false"@
        },
        ExprModel::If { cond, cons, alt, .. } => "if ("@ + expr_text(*cond) + ") "@ + block_text(cons)
            + match alt {
            Some(b) => " else "@ + block_text(b),
            None => Seq::empty(),
        },
        ExprModel::Func { tok, params, body } => tok.text + "("@ + names_text(params) + ") "@
            + block_text(body),
        ExprModel::Call { func, args, .. } => expr_text(*func) + "("@ + args_text(args) + ")"@,
    }
}

/// Canonical texts of expressions joined with `", "`.
pub open spec fn args_text(es: Seq<ExprModel>) -> Seq<char>
    decreases es, 0int,
{
    if es.len() == 0 {
        Seq::empty()
    } else if es.len() == 1 {
        expr_text(es[0])
    } else {
        args_text(es.subrange(0, es.len() - 1)) + ", "@ + expr_text(es[es.len() - 1])
    }
}

/// Canonical text of a statement.
pub open spec fn stmt_text(s: StmtModel) -> Seq<char>
    decreases s, 0int,
{
    match s {
        StmtModel::Let { name, value, .. } => "let "@ + name.name + " = "@ + expr_text(value)
            + ";"@,
        StmtModel::Return { value, .. } => "return "@ + expr_text(value) + ";"@,
        StmtModel::Expr { expr, .. } => expr_text(expr),
    }
}

/// Canonical texts of statements, one after the other.
pub open spec fn stmts_text(ss: Seq<StmtModel>) -> Seq<char>
    decreases ss, 0int,
{
    if ss.len() == 0 {
        Seq::empty()
    } else {
        stmts_text(ss.subrange(0, ss.len() - 1)) + stmt_text(ss[ss.len() - 1])
    }
}

/// Canonical text of a block: its statements between braces.
pub open spec fn block_text(b: BlockModel) -> Seq<char>
    decreases b, 0int,
{
    "{"@ + stmts_text(b.stmts) + "}"@
}

// ---------------------------------------------------------------------------------------------
// The syntax tree.
// ---------------------------------------------------------------------------------------------

/// What kind of node a value is.
#[derive(Debug, Clone, Copy, PartialEq, Eq, Structural)]
pub enum NodeType {
    Program,
    LetStatement,
    Identifier,
    ReturnStatement,
    ExpressionStatement,
    IntegerLiteral,
    PrefixExpression,
    InfixExpression,
    Boolean,
    IfExpression,
    BlockStatement,
    FunctionLiteral,
    CallExpression,
}

#[derive(Debug)]
pub struct Identifier {
    pub token: Token,
    pub value: String,
}

#[derive(Debug)]
pub struct IntegerLiteral {
    pub token: Token,
    pub value: i64,
}

#[derive(Debug)]
pub struct PrefixExpression {
    pub token: Token,
    pub operator: String,
    pub right: Box<Expression>,
}

#[derive(Debug)]
pub struct InfixExpression {
    pub token: Token,
    pub left: Box<Expression>,
    pub operator: String,
    pub right: Box<Expression>,
}

#[derive(Debug)]
pub struct Boolean {
    pub token: Token,
    pub value: bool,
}

#[derive(Debug)]
pub struct IfExpression {
    pub token: Token,
    pub condition: Box<Expression>,
    pub consequence: BlockStatement,
    pub alternative: Option<BlockStatement>,
}

#[derive(Debug)]
pub struct BlockStatement {
    pub token: Token,
    pub statements: Vec<Statement>,
}

#[derive(Debug)]
pub struct FunctionLiteral {
    pub token: Token,
    pub parameters: Vec<Identifier>,
    pub body: BlockStatement,
}

#[derive(Debug)]
pub struct CallExpression {
    pub token: Token,
    pub function: Box<Expression>,
    pub arguments: Vec<Expression>,
}

/// An expression node, one variant per kind.
#[derive(Debug)]
pub enum Expression {
    Identifier(Identifier),
    IntegerLiteral(IntegerLiteral),
    Prefix(PrefixExpression),
    Infix(InfixExpression),
    Boolean(Boolean),
    If(IfExpression),
    Function(FunctionLiteral),
    Call(CallExpression),
}

#[derive(Debug)]
pub struct LetStatement {
    pub token: Token,
    pub name: Identifier,
    pub value: Expression,
}

#[derive(Debug)]
pub struct ReturnStatement {
    pub token: Token,
    pub return_value: Expression,
}

#[derive(Debug)]
pub struct ExpressionStatement {
    pub token: Token,
    pub expression: Expression,
}

/// A statement node, one variant per kind.
#[derive(Debug)]
pub enum Statement {
    Let(LetStatement),
    Return(ReturnStatement),
    Expression(ExpressionStatement),
}

/// The root of a syntax tree: the top-level statements in order.
#[derive(Debug)]
pub struct Program {
    pub statements: Vec<Statement>,
}

// ---------------------------------------------------------------------------------------------
// Views of the tree.
// ---------------------------------------------------------------------------------------------

pub open spec fn ident_model(i: Identifier) -> IdentModel {
    IdentModel { tok: i.token@, name: i.value@ }
}

pub open spec fn params_model(ps: Seq<Identifier>) -> Seq<IdentModel> {
    Seq::new(ps.len(), |i: int| ident_model(ps[i]))
}

pub open spec fn expr_model(e: Expression) -> ExprModel
    decreases e, 0int,
{
    match e {
        Expression::Identifier(i) => ExprModel::Ident(ident_model(i)),
        Expression::IntegerLiteral(n) => ExprModel::Int { tok: n.token@, value: n.value },
        Expression::Prefix(p) => ExprModel::Prefix {
            tok: p.token@,
            op: p.operator@,
            right: Box::new(expr_model(*p.right)),
        },
        Expression::Infix(x) => ExprModel::Infix {
            tok: x.token@,
            left: Box::new(expr_model(*x.left)),
            op: x.operator@,
            right: Box::new(expr_model(*x.right)),
        },
        Expression::Boolean(b) => ExprModel::Bool { tok: b.token@, truth: b.value },
        Expression::If(x) => ExprModel::If {
            tok: x.token@,
            cond: Box::new(expr_model(*x.condition)),
            cons: block_model(x.consequence),
            alt: match x.alternative {
                Some(b) => Some(block_model(b)),
                None => None,
            },
        },
        Expression::Function(f) => ExprModel::Func {
            tok: f.token@,
            params: params_model(f.parameters@),
            body: block_model(f.body),
        },
        Expression::Call(c) => ExprModel::Call {
            tok: c.token@,
            func: Box::new(expr_model(*c.function)),
            args: Seq::new(
                c.arguments@.len(),
                |i: int|
                    if 0 <= i < c.arguments@.len() {
                        expr_model(c.arguments[i])
                    } else {
                        arbitrary()
                    },
            ),
        },
    }
}

pub open spec fn stmt_model(s: Statement) -> StmtModel
    decreases s, 0int,
{
    match s {
        Statement::Let(l) => StmtModel::Let {
            tok: l.token@,
            name: ident_model(l.name),
            value: expr_model(l.value),
        },
        Statement::Return(r) => StmtModel::Return { tok: r.token@, value: expr_model(r.return_value) },
        Statement::Expression(x) => StmtModel::Expr { tok: x.token@, expr: expr_model(x.expression) },
    }
}

pub open spec fn block_model(b: BlockStatement) -> BlockModel
    decreases b, 0int,
{
    BlockModel {
        tok: b.token@,
        stmts: Seq::new(
            b.statements@.len(),
            |i: int|
                if 0 <= i < b.statements@.len() {
                    stmt_model(b.statements[i])
                } else {
                    arbitrary()
                },
        ),
    }
}

impl View for Identifier {
    type V = IdentModel;

    open spec fn view(&self) -> IdentModel {
        ident_model(*self)
    }
}

impl View for Expression {
    type V = ExprModel;

    open spec fn view(&self) -> ExprModel {
        expr_model(*self)
    }
}

impl View for Statement {
    type V = StmtModel;

    open spec fn view(&self) -> StmtModel {
        stmt_model(*self)
    }
}

impl View for BlockStatement {
    type V = BlockModel;

    open spec fn view(&self) -> BlockModel {
        block_model(*self)
    }
}

impl View for Program {
    type V = Seq<StmtModel>;

    open spec fn view(&self) -> Seq<StmtModel> {
        Seq::new(self.statements@.len(), |i: int| self.statements@[i]@)
    }
}

// ---------------------------------------------------------------------------------------------
// Canonical text, computed.
// ---------------------------------------------------------------------------------------------

fn digit_string(d: u64) -> (r: String)
    requires
        d < 10,
    ensures
        r@ == digit_text(d as int),
{
    match d {
        0 => String::from_str("0"),
        1 => String::from_str("1"),
        2 => String::from_str("2"),
        3 => String::from_str("3"),
        4 => String::from_str("4"),
        5 => String::from_str("5"),
        6 => String::from_str("6"),
        7 => String::from_str("7"),
        8 => String::from_str("8"),
        _ => String::from_str("9"),
    }
}

fn nat_string(n: u64) -> (r: String)
    ensures
        r@ == nat_text(n as nat),
    decreases n,
{
    if n < 10 {
        digit_string(n)
    } else {
        let mut r = nat_string(n / 10);
        let d = digit_string(n % 10);
        r.append(d.as_str());
        r
    }
}

/// Decimal text of an integer.
pub fn int_string(v: i64) -> (r: String)
    ensures
        r@ == int_text(v as int),
{
    if v < 0 {
        let m: u64 = if v == i64::MIN {
            9223372036854775808u64
        } else {
            (-v) as u64
        };
        let mut r = String::from_str("-");
        let t = nat_string(m);
        r.append(t.as_str());
        r
    } else {
        nat_string(v as u64)
    }
}

impl Identifier {
    pub fn to_string(&self) -> (r: String)
        ensures
            r@ == self@.name,
    {
        self.value.clone()
    }
}

fn params_string(ps: &Vec<Identifier>) -> (r: String)
    ensures
        r@ == names_text(params_model(ps@)),
{
    let mut out = String::new();
    let mut i: usize = 0;
    while i < ps.len()
        invariant
            i <= ps@.len(),
            out@ == names_text(params_model(ps@).subrange(0, i as int)),
        decreases ps.len() - i,
    {
        let ghost pm = params_model(ps@);
        assert(pm.subrange(0, i + 1).subrange(0, i as int) == pm.subrange(0, i as int));
        if i > 0 {
            out.append(", ");
        }
        let t = ps[i].to_string();
        out.append(t.as_str());
        i = i + 1;
        assert(out@ == names_text(pm.subrange(0, i as int)));
    }
    assert(params_model(ps@).subrange(0, ps@.len() as int) == params_model(ps@));
    out
}

impl PrefixExpression {
    pub fn to_string(&self) -> (r: String)
        ensures
            r@ == "("@ + self.operator@ + expr_text(self.right@) + ")"@,
        decreases self, 0int,
    {
        let mut out = String::from_str("(");
        out.append(self.operator.as_str());
        let t = self.right.to_string();
        out.append(t.as_str());
        out.append(")");
        out
    }
}

impl InfixExpression {
    pub fn to_string(&self) -> (r: String)
        ensures
            r@ == "("@ + expr_text(self.left@) + " "@ + self.operator@ + " "@ + expr_text(
                self.right@,
            ) + ")"@,
        decreases self, 0int,
    {
        let mut out = String::from_str("(");
        let l = self.left.to_string();
        out.append(l.as_str());
        out.append(" ");
        out.append(self.operator.as_str());
        out.append(" ");
        let r = self.right.to_string();
        out.append(r.as_str());
        out.append(")");
        out
    }
}

impl IfExpression {
    pub fn to_string(&self) -> (r: String)
        ensures
            r@ == "if ("@ + expr_text(self.condition@) + ") "@ + block_text(self.consequence@)
                + match self.alternative {
                Some(b) => " else "@ + block_text(b@),
                None => Seq::empty(),
            },
        decreases self, 0int,
    {
        let mut out = String::from_str("if (");
        let c = self.condition.to_string();
        out.append(c.as_str());
        out.append(") ");
        let b = self.consequence.to_string();
        out.append(b.as_str());
        match &self.alternative {
            Some(alt) => {
                out.append(" else ");
                let a = alt.to_string();
                out.append(a.as_str());
            },
            None => {},
        }
        out
    }
}

impl FunctionLiteral {
    pub fn to_string(&self) -> (r: String)
        ensures
            r@ == self.token@.text + "("@ + names_text(params_model(self.parameters@)) + ") "@
                + block_text(self.body@),
        decreases self, 0int,
    {
        let mut out = self.token.literal.clone();
        out.append("(");
        let ps = params_string(&self.parameters);
        out.append(ps.as_str());
        out.append(") ");
        let b = self.body.to_string();
        out.append(b.as_str());
        out
    }
}

/// The canonical texts of `args`, joined with `", "`.
fn arguments_string(args: &Vec<Expression>) -> (r: String)
    ensures
        r@ == args_text(Seq::new(args@.len(), |i: int| args@[i]@)),
    decreases args, 0int,
{
    let ghost am = Seq::new(args@.len(), |i: int| args@[i]@);
    let mut out = String::new();
    let mut i: usize = 0;
    while i < args.len()
        invariant
            i <= args@.len(),
            am == Seq::new(args@.len(), |i: int| args@[i]@),
            out@ == args_text(am.subrange(0, i as int)),
        decreases args.len() - i,
    {
        assert(am.subrange(0, i + 1).subrange(0, i as int) == am.subrange(0, i as int));
        if i > 0 {
            out.append(", ");
        }
        let t = args[i].to_string();
        out.append(t.as_str());
        i = i + 1;
    }
    assert(am.subrange(0, args@.len() as int) == am);
    out
}

impl CallExpression {
    pub fn to_string(&self) -> (r: String)
        ensures
            r@ == expr_text(self.function@) + "("@ + args_text(
                Seq::new(self.arguments@.len(), |i: int| self.arguments@[i]@),
            ) + ")"@,
        decreases self, 0int,
    {
        let mut out = self.function.to_string();
        out.append("(");
        let a = arguments_string(&self.arguments);
        out.append(a.as_str());
        out.append(")");
        out
    }
}

impl Expression {
    /// The canonical, fully parenthesized text of the expression.
    pub fn to_string(&self) -> (r: String)
        ensures
            r@ == expr_text(self@),
        decreases self, 0int,
    {
        match self {
            Expression::Identifier(i) => i.value.clone(),
            Expression::IntegerLiteral(n) => int_string(n.value),
            Expression::Prefix(p) => p.to_string(),
            Expression::Infix(x) => x.to_string(),
            Expression::Boolean(b) => if b.value {
                String::from_str("true")
            } else {
                String::from_str("false")
            },
            Expression::If(x) => x.to_string(),
            Expression::Function(f) => f.to_string(),
            Expression::Call(c) => {
                let r = c.to_string();
                assert(Seq::new(c.arguments@.len(), |i: int| c.arguments@[i]@) =~= self@->Call_args);
                r
            },
        }
    }
}

impl Statement {
    /// The canonical text of the statement.
    pub fn to_string(&self) -> (r: String)
        ensures
            r@ == stmt_text(self@),
        decreases self, 0int,
    {
        match self {
            Statement::Let(l) => {
                let mut out = String::from_str("let ");
                out.append(l.name.value.as_str());
                out.append(" = ");
                let v = l.value.to_string();
                out.append(v.as_str());
                out.append(";");
                out
            },
            Statement::Return(r) => {
                let mut out = String::from_str("return ");
                let v = r.return_value.to_string();
                out.append(v.as_str());
                out.append(";");
                out
            },
            Statement::Expression(x) => x.expression.to_string(),
        }
    }
}

fn statements_string(ss: &Vec<Statement>) -> (r: String)
    ensures
        r@ == stmts_text(Seq::new(ss@.len(), |i: int| ss@[i]@)),
    decreases ss, 0int,
{
    let ghost sm = Seq::new(ss@.len(), |i: int| ss@[i]@);
    let mut out = String::new();
    let mut i: usize = 0;
    while i < ss.len()
        invariant
            i <= ss@.len(),
            sm == Seq::new(ss@.len(), |i: int| ss@[i]@),
            out@ == stmts_text(sm.subrange(0, i as int)),
        decreases ss.len() - i,
    {
        assert(sm.subrange(0, i + 1).subrange(0, i as int) == sm.subrange(0, i as int));
        let t = ss[i].to_string();
        out.append(t.as_str());
        i = i + 1;
    }
    assert(sm.subrange(0, ss@.len() as int) == sm);
    out
}

impl BlockStatement {
    /// The canonical text of the block: its statements between braces.
    pub fn to_string(&self) -> (r: String)
        ensures
            r@ == block_text(self@),
        decreases self, 0int,
    {
        let mut out = String::from_str("{");
        let t = statements_string(&self.statements);
        out.append(t.as_str());
        out.append("}");
        assert(Seq::new(self.statements@.len(), |i: int| self.statements@[i]@) == self@.stmts);
        out
    }
}

impl Program {
    /// The canonical text of the program: its statements' texts, one after the other.
    pub fn to_string(&self) -> (r: String)
        ensures
            r@ == stmts_text(self@),
    {
        statements_string(&self.statements)
    }
}

// ---------------------------------------------------------------------------------------------
// What every node reports about itself.
// ---------------------------------------------------------------------------------------------

/// The capabilities shared by all nodes: their kind and the token that introduced them.
pub trait Node {
    spec fn node_kind(&self) -> NodeType;

    spec fn origin(&self) -> Lexeme;

    fn node_type(&self) -> (r: NodeType)
        ensures
            r == self.node_kind(),
    ;

    /// The literal text of the token that introduced the node.
    fn token_literal(&self) -> (r: &str)
        ensures
            r@ == self.origin().text,
    ;

    /// The kind of the token that introduced the node.
    fn token_type(&self) -> (r: TokenType)
        ensures
            r == self.origin().kind,
    ;
}

impl Node for Identifier {
    open spec fn node_kind(&self) -> NodeType {
        NodeType::Identifier
    }

    open spec fn origin(&self) -> Lexeme {
        self.token@
    }

    fn node_type(&self) -> (r: NodeType) {
        NodeType::Identifier
    }

    fn token_literal(&self) -> (r: &str) {
        self.token.literal.as_str()
    }

    fn token_type(&self) -> (r: TokenType) {
        self.token.token_type
    }
}

impl Node for IntegerLiteral {
    open spec fn node_kind(&self) -> NodeType {
        NodeType::IntegerLiteral
    }

    open spec fn origin(&self) -> Lexeme {
        self.token@
    }

    fn node_type(&self) -> (r: NodeType) {
        NodeType::IntegerLiteral
    }

    fn token_literal(&self) -> (r: &str) {
        self.token.literal.as_str()
    }

    fn token_type(&self) -> (r: TokenType) {
        self.token.token_type
    }
}

impl Node for PrefixExpression {
    open spec fn node_kind(&self) -> NodeType {
        NodeType::PrefixExpression
    }

    open spec fn origin(&self) -> Lexeme {
        self.token@
    }

    fn node_type(&self) -> (r: NodeType) {
        NodeType::PrefixExpression
    }

    fn token_literal(&self) -> (r: &str) {
        self.token.literal.as_str()
    }

    fn token_type(&self) -> (r: TokenType) {
        self.token.token_type
    }
}

impl Node for InfixExpression {
    open spec fn node_kind(&self) -> NodeType {
        NodeType::InfixExpression
    }

    open spec fn origin(&self) -> Lexeme {
        self.token@
    }

    fn node_type(&self) -> (r: NodeType) {
        NodeType::InfixExpression
    }

    fn token_literal(&self) -> (r: &str) {
        self.token.literal.as_str()
    }

    fn token_type(&self) -> (r: TokenType) {
        self.token.token_type
    }
}

impl Node for Boolean {
    open spec fn node_kind(&self) -> NodeType {
        NodeType::Boolean
    }

    open spec fn origin(&self) -> Lexeme {
        self.token@
    }

    fn node_type(&self) -> (r: NodeType) {
        NodeType::Boolean
    }

    fn token_literal(&self) -> (r: &str) {
        self.token.literal.as_str()
    }

    fn token_type(&self) -> (r: TokenType) {
        self.token.token_type
    }
}

impl Node for IfExpression {
    open spec fn node_kind(&self) -> NodeType {
        NodeType::IfExpression
    }

    open spec fn origin(&self) -> Lexeme {
        self.token@
    }

    fn node_type(&self) -> (r: NodeType) {
        NodeType::IfExpression
    }

    fn token_literal(&self) -> (r: &str) {
        self.token.literal.as_str()
    }

    fn token_type(&self) -> (r: TokenType) {
        self.token.token_type
    }
}

impl Node for BlockStatement {
    open spec fn node_kind(&self) -> NodeType {
        NodeType::BlockStatement
    }

    open spec fn origin(&self) -> Lexeme {
        self.token@
    }

    fn node_type(&self) -> (r: NodeType) {
        NodeType::BlockStatement
    }

    fn token_literal(&self) -> (r: &str) {
        self.token.literal.as_str()
    }

    fn token_type(&self) -> (r: TokenType) {
        self.token.token_type
    }
}

impl Node for FunctionLiteral {
    open spec fn node_kind(&self) -> NodeType {
        NodeType::FunctionLiteral
    }

    open spec fn origin(&self) -> Lexeme {
        self.token@
    }

    fn node_type(&self) -> (r: NodeType) {
        NodeType::FunctionLiteral
    }

    fn token_literal(&self) -> (r: &str) {
        self.token.literal.as_str()
    }

    fn token_type(&self) -> (r: TokenType) {
        self.token.token_type
    }
}

impl Node for CallExpression {
    open spec fn node_kind(&self) -> NodeType {
        NodeType::CallExpression
    }

    open spec fn origin(&self) -> Lexeme {
        self.token@
    }

    fn node_type(&self) -> (r: NodeType) {
        NodeType::CallExpression
    }

    fn token_literal(&self) -> (r: &str) {
        self.token.literal.as_str()
    }

    fn token_type(&self) -> (r: TokenType) {
        self.token.token_type
    }
}

impl Node for LetStatement {
    open spec fn node_kind(&self) -> NodeType {
        NodeType::LetStatement
    }

    open spec fn origin(&self) -> Lexeme {
        self.token@
    }

    fn node_type(&self) -> (r: NodeType) {
        NodeType::LetStatement
    }

    fn token_literal(&self) -> (r: &str) {
        self.token.literal.as_str()
    }

    fn token_type(&self) -> (r: TokenType) {
        self.token.token_type
    }
}

impl Node for ReturnStatement {
    open spec fn node_kind(&self) -> NodeType {
        NodeType::ReturnStatement
    }

    open spec fn origin(&self) -> Lexeme {
        self.token@
    }

    fn node_type(&self) -> (r: NodeType) {
        NodeType::ReturnStatement
    }

    fn token_literal(&self) -> (r: &str) {
        self.token.literal.as_str()
    }

    fn token_type(&self) -> (r: TokenType) {
        self.token.token_type
    }
}

impl Node for ExpressionStatement {
    open spec fn node_kind(&self) -> NodeType {
        NodeType::ExpressionStatement
    }

    open spec fn origin(&self) -> Lexeme {
        self.token@
    }

    fn node_type(&self) -> (r: NodeType) {
        NodeType::ExpressionStatement
    }

    fn token_literal(&self) -> (r: &str) {
        self.token.literal.as_str()
    }

    fn token_type(&self) -> (r: TokenType) {
        self.token.token_type
    }
}

impl Node for Expression {
    open spec fn node_kind(&self) -> NodeType {
        match self {
            Expression::Identifier(_) => NodeType::Identifier,
            Expression::IntegerLiteral(_) => NodeType::IntegerLiteral,
            Expression::Prefix(_) => NodeType::PrefixExpression,
            Expression::Infix(_) => NodeType::InfixExpression,
            Expression::Boolean(_) => NodeType::Boolean,
            Expression::If(_) => NodeType::IfExpression,
            Expression::Function(_) => NodeType::FunctionLiteral,
            Expression::Call(_) => NodeType::CallExpression,
        }
    }

    open spec fn origin(&self) -> Lexeme {
        match self {
            Expression::Identifier(x) => x.token@,
            Expression::IntegerLiteral(x) => x.token@,
            Expression::Prefix(x) => x.token@,
            Expression::Infix(x) => x.token@,
            Expression::Boolean(x) => x.token@,
            Expression::If(x) => x.token@,
            Expression::Function(x) => x.token@,
            Expression::Call(x) => x.token@,
        }
    }

    fn node_type(&self) -> (r: NodeType) {
        match self {
            Expression::Identifier(x) => x.node_type(),
            Expression::IntegerLiteral(x) => x.node_type(),
            Expression::Prefix(x) => x.node_type(),
            Expression::Infix(x) => x.node_type(),
            Expression::Boolean(x) => x.node_type(),
            Expression::If(x) => x.node_type(),
            Expression::Function(x) => x.node_type(),
            Expression::Call(x) => x.node_type(),
        }
    }

    fn token_literal(&self) -> (r: &str) {
        match self {
            Expression::Identifier(x) => x.token_literal(),
            Expression::IntegerLiteral(x) => x.token_literal(),
            Expression::Prefix(x) => x.token_literal(),
            Expression::Infix(x) => x.token_literal(),
            Expression::Boolean(x) => x.token_literal(),
            Expression::If(x) => x.token_literal(),
            Expression::Function(x) => x.token_literal(),
            Expression::Call(x) => x.token_literal(),
        }
    }

    fn token_type(&self) -> (r: TokenType) {
        match self {
            Expression::Identifier(x) => x.token_type(),
            Expression::IntegerLiteral(x) => x.token_type(),
            Expression::Prefix(x) => x.token_type(),
            Expression::Infix(x) => x.token_type(),
            Expression::Boolean(x) => x.token_type(),
            Expression::If(x) => x.token_type(),
            Expression::Function(x) => x.token_type(),
            Expression::Call(x) => x.token_type(),
        }
    }
}

impl Node for Statement {
    open spec fn node_kind(&self) -> NodeType {
        match self {
            Statement::Let(_) => NodeType::LetStatement,
            Statement::Return(_) => NodeType::ReturnStatement,
            Statement::Expression(_) => NodeType::ExpressionStatement,
        }
    }

    open spec fn origin(&self) -> Lexeme {
        match self {
            Statement::Let(x) => x.token@,
            Statement::Return(x) => x.token@,
            Statement::Expression(x) => x.token@,
        }
    }

    fn node_type(&self) -> (r: NodeType) {
        match self {
            Statement::Let(x) => x.node_type(),
            Statement::Return(x) => x.node_type(),
            Statement::Expression(x) => x.node_type(),
        }
    }

    fn token_literal(&self) -> (r: &str) {
        match self {
            Statement::Let(x) => x.token_literal(),
            Statement::Return(x) => x.token_literal(),
            Statement::Expression(x) => x.token_literal(),
        }
    }

    fn token_type(&self) -> (r: TokenType) {
        match self {
            Statement::Let(x) => x.token_type(),
            Statement::Return(x) => x.token_type(),
            Statement::Expression(x) => x.token_type(),
        }
    }
}

// ---------------------------------------------------------------------------------------------
// Constructors and accessors.
// ---------------------------------------------------------------------------------------------

impl Program {
    pub fn new() -> (r: Program)
        ensures
            r.statements@.len() == 0,
    {
        Program { statements: Vec::new() }
    }

    pub fn statements(&self) -> (r: &Vec<Statement>)
        ensures
            r@ == self.statements@,
    {
        &self.statements
    }

    pub fn add_statement(&mut self, stmt: Statement)
        ensures
            final(self).statements@ == old(self).statements@.push(stmt),
    {
        self.statements.push(stmt);
    }

    /// The literal of the first statement's token, or the empty text for an empty program.
    pub fn token_literal(&self) -> (r: &str)
        ensures
            r@ == (if self.statements@.len() > 0 {
                self.statements@[0].origin().text
            } else {
                Seq::empty()
            }),
    {
        if self.statements.len() > 0 {
            self.statements[0].token_literal()
        } else {
            proof {
                reveal_strlit("");
            }
            ""
        }
    }

    pub fn node_type(&self) -> (r: NodeType)
        ensures
            r == NodeType::Program,
    {
        NodeType::Program
    }

    /// A program is introduced by no token of its own; it reports the end-of-input kind.
    pub fn token_type(&self) -> (r: TokenType)
        ensures
            r == TokenType::Eof,
    {
        TokenType::Eof
    }
}

impl Identifier {
    pub fn new(token: Token, value: String) -> (r: Identifier)
        ensures
            r.token == token,
            r.value == value,
    {
        Identifier { token, value }
    }

    pub fn token(&self) -> (r: &Token)
        ensures
            *r == self.token,
    {
        &self.token
    }

    pub fn value(&self) -> (r: &str)
        ensures
            r@ == self.value@,
    {
        self.value.as_str()
    }
}

impl LetStatement {
    pub fn new(token: Token, name: Identifier, value: Expression) -> (r: LetStatement)
        ensures
            r.token == token,
            r.name == name,
            r.value == value,
    {
        LetStatement { token, name, value }
    }

    pub fn token(&self) -> (r: &Token)
        ensures
            *r == self.token,
    {
        &self.token
    }

    pub fn name(&self) -> (r: &Identifier)
        ensures
            *r == self.name,
    {
        &self.name
    }

    pub fn value(&self) -> (r: &Expression)
        ensures
            *r == self.value,
    {
        &self.value
    }
}

impl ReturnStatement {
    pub fn new(token: Token, return_value: Expression) -> (r: ReturnStatement)
        ensures
            r.token == token,
            r.return_value == return_value,
    {
        ReturnStatement { token, return_value }
    }

    pub fn return_value(&self) -> (r: &Expression)
        ensures
            *r == self.return_value,
    {
        &self.return_value
    }
}

impl ExpressionStatement {
    pub fn new(token: Token, expression: Expression) -> (r: ExpressionStatement)
        ensures
            r.token == token,
            r.expression == expression,
    {
        ExpressionStatement { token, expression }
    }

    pub fn token(&self) -> (r: &Token)
        ensures
            *r == self.token,
    {
        &self.token
    }

    pub fn expression(&self) -> (r: &Expression)
        ensures
            *r == self.expression,
    {
        &self.expression
    }
}

impl IntegerLiteral {
    pub fn new(token: Token, value: i64) -> (r: IntegerLiteral)
        ensures
            r.token == token,
            r.value == value,
    {
        IntegerLiteral { token, value }
    }

    pub fn token(&self) -> (r: &Token)
        ensures
            *r == self.token,
    {
        &self.token
    }

    pub fn value(&self) -> (r: i64)
        ensures
            r == self.value,
    {
        self.value
    }
}

impl PrefixExpression {
    pub fn new(token: Token, operator: String, right: Expression) -> (r: PrefixExpression)
        ensures
            r.token == token,
            r.operator == operator,
            *r.right == right,
    {
        PrefixExpression { token, operator, right: Box::new(right) }
    }

    pub fn token(&self) -> (r: &Token)
        ensures
            *r == self.token,
    {
        &self.token
    }

    pub fn operator(&self) -> (r: &str)
        ensures
            r@ == self.operator@,
    {
        self.operator.as_str()
    }

    pub fn right(&self) -> (r: &Expression)
        ensures
            *r == *self.right,
    {
        &self.right
    }
}

impl InfixExpression {
    pub fn new(token: Token, left: Expression, operator: String, right: Expression) -> (r:
        InfixExpression)
        ensures
            r.token == token,
            *r.left == left,
            r.operator == operator,
            *r.right == right,
    {
        InfixExpression { token, left: Box::new(left), operator, right: Box::new(right) }
    }

    pub fn token(&self) -> (r: &Token)
        ensures
            *r == self.token,
    {
        &self.token
    }

    pub fn left(&self) -> (r: &Expression)
        ensures
            *r == *self.left,
    {
        &self.left
    }

    pub fn operator(&self) -> (r: &str)
        ensures
            r@ == self.operator@,
    {
        self.operator.as_str()
    }

    pub fn right(&self) -> (r: &Expression)
        ensures
            *r == *self.right,
    {
        &self.right
    }
}

impl Boolean {
    pub fn new(token: Token, value: bool) -> (r: Boolean)
        ensures
            r.token == token,
            r.value == value,
    {
        Boolean { token, value }
    }

    pub fn token(&self) -> (r: &Token)
        ensures
            *r == self.token,
    {
        &self.token
    }

    pub fn value(&self) -> (r: bool)
        ensures
            r == self.value,
    {
        self.value
    }
}

impl IfExpression {
    pub fn new(
        token: Token,
        condition: Expression,
        consequence: BlockStatement,
        alternative: Option<BlockStatement>,
    ) -> (r: IfExpression)
        ensures
            r.token == token,
            *r.condition == condition,
            r.consequence == consequence,
            r.alternative == alternative,
    {
        IfExpression { token, condition: Box::new(condition), consequence, alternative }
    }

    pub fn token(&self) -> (r: &Token)
        ensures
            *r == self.token,
    {
        &self.token
    }

    pub fn condition(&self) -> (r: &Expression)
        ensures
            *r == *self.condition,
    {
        &self.condition
    }

    pub fn consequence(&self) -> (r: &BlockStatement)
        ensures
            *r == self.consequence,
    {
        &self.consequence
    }

    pub fn alternative(&self) -> (r: &Option<BlockStatement>)
        ensures
            *r == self.alternative,
    {
        &self.alternative
    }
}

impl BlockStatement {
    /// An empty block opened by `token`.
    pub fn new(token: Token) -> (r: BlockStatement)
        ensures
            r.token == token,
            r.statements@.len() == 0,
    {
        BlockStatement { token, statements: Vec::new() }
    }

    pub fn token(&self) -> (r: &Token)
        ensures
            *r == self.token,
    {
        &self.token
    }

    pub fn statements(&self) -> (r: &Vec<Statement>)
        ensures
            r@ == self.statements@,
    {
        &self.statements
    }

    pub fn add_statement(&mut self, stmt: Statement)
        ensures
            final(self).token == old(self).token,
            final(self).statements@ == old(self).statements@.push(stmt),
    {
        self.statements.push(stmt);
    }
}

impl FunctionLiteral {
    pub fn new(token: Token, parameters: Vec<Identifier>, body: BlockStatement) -> (r:
        FunctionLiteral)
        ensures
            r.token == token,
            r.parameters == parameters,
            r.body == body,
    {
        FunctionLiteral { token, parameters, body }
    }

    pub fn token(&self) -> (r: &Token)
        ensures
            *r == self.token,
    {
        &self.token
    }

    pub fn parameters(&self) -> (r: &Vec<Identifier>)
        ensures
            r@ == self.parameters@,
    {
        &self.parameters
    }

    pub fn body(&self) -> (r: &BlockStatement)
        ensures
            *r == self.body,
    {
        &self.body
    }
}

impl CallExpression {
    pub fn new(token: Token, function: Expression, arguments: Vec<Expression>) -> (r:
        CallExpression)
        ensures
            r.token == token,
            *r.function == function,
            r.arguments == arguments,
    {
        CallExpression { token, function: Box::new(function), arguments }
    }

    pub fn token(&self) -> (r: &Token)
        ensures
            *r == self.token,
    {
        &self.token
    }

    pub fn function(&self) -> (r: &Expression)
        ensures
            *r == *self.function,
    {
        &self.function
    }

    pub fn arguments(&self) -> (r: &Vec<Expression>)
        ensures
            r@ == self.arguments@,
    {
        &self.arguments
    }
}

} // verus!

use vstd::prelude::*;
use vstd::string::StringExecFns;

use crate::position::{PosV, Position};
use crate::text::str_eq;

verus! {

/// The binary operators of the expression grammar.
#[derive(Debug, Clone, Copy, PartialEq, Eq, Structural)]
pub enum Operator {
    Add,
    Sub,
    Mul,
    Div,
    Mod,
    Pow,
    Eq,
    Lt,
    Gt,
    NEq,
    LtEq,
    GtEq,
}

/// The static operator table: textual form to operator and precedence
/// (higher binds tighter). Comparisons bind loosest at 1; additive 2;
/// multiplicative 3; power 4. Unrecognised text maps to nothing.
pub open spec fn op_prec_spec(s: Seq<char>) -> Option<(Operator, u8)> {
    if s == "=="@ { Some((Operator::Eq, 1u8)) }
    else if s == "<"@ { Some((Operator::Lt, 1u8)) }
    else if s == ">"@ { Some((Operator::Gt, 1u8)) }
    else if s == "!="@ { Some((Operator::NEq, 1u8)) }
    else if s == "<="@ { Some((Operator::LtEq, 1u8)) }
    else if s == ">="@ { Some((Operator::GtEq, 1u8)) }
    else if s == "+"@ { Some((Operator::Add, 2u8)) }
    else if s == "-"@ { Some((Operator::Sub, 2u8)) }
    else if s == "*"@ { Some((Operator::Mul, 3u8)) }
    else if s == "/"@ { Some((Operator::Div, 3u8)) }
    else if s == "%"@ { Some((Operator::Mod, 3u8)) }
    else if s == "^"@ { Some((Operator::Pow, 4u8)) }
    else { None }
}

impl Operator {
    /// Looks the textual form of an operator up in the precedence table.
    pub fn from_str(operator: &str) -> (r: Option<(Operator, u8)>)
        ensures
            r == op_prec_spec(operator@),
    {
        if str_eq(operator, "==") { Some((Operator::Eq, 1)) }
        else if str_eq(operator, "<") { Some((Operator::Lt, 1)) }
        else if str_eq(operator, ">") { Some((Operator::Gt, 1)) }
        else if str_eq(operator, "!=") { Some((Operator::NEq, 1)) }
        else if str_eq(operator, "<=") { Some((Operator::LtEq, 1)) }
        else if str_eq(operator, ">=") { Some((Operator::GtEq, 1)) }
        else if str_eq(operator, "+") { Some((Operator::Add, 2)) }
        else if str_eq(operator, "-") { Some((Operator::Sub, 2)) }
        else if str_eq(operator, "*") { Some((Operator::Mul, 3)) }
        else if str_eq(operator, "/") { Some((Operator::Div, 3)) }
        else if str_eq(operator, "%") { Some((Operator::Mod, 3)) }
        else if str_eq(operator, "^") { Some((Operator::Pow, 4)) }
        else { None }
    }

    pub open spec fn spec_symbol(self) -> Seq<char> {
        match self {
            Operator::Add => "+"@,
            Operator::Sub => "-"@,
            Operator::Pow => "^"@,
            Operator::Mul => "*"@,
            Operator::Div => "/"@,
            Operator::Mod => "%"@,
            Operator::Eq => "=="@,
            Operator::Lt => "<"@,
            Operator::Gt => ">"@,
            Operator::NEq => "!="@,
            Operator::LtEq => "<="@,
            Operator::GtEq => ">="@,
        }
    }

    /// The operator's textual form.
    pub fn symbol(&self) -> (r: String)
        ensures
            r@ == self.spec_symbol(),
    {
        match self {
            Operator::Add => String::from_str("+"),
            Operator::Sub => String::from_str("-"),
            Operator::Pow => String::from_str("^"),
            Operator::Mul => String::from_str("*"),
            Operator::Div => String::from_str("/"),
            Operator::Mod => String::from_str("%"),
            Operator::Eq => String::from_str("=="),
            Operator::Lt => String::from_str("<"),
            Operator::Gt => String::from_str(">"),
            Operator::NEq => String::from_str("!="),
            Operator::LtEq => String::from_str("<="),
            Operator::GtEq => String::from_str(">="),
        }
    }
}

/// An expression-tree node. `Number` keeps the numeric lexeme exactly as the
/// scanner wrote it (the scanner guarantees it is float-parseable); callers
/// that evaluate convert it themselves. `EOF` is the sentinel an atom read
/// past the end of input yields.
#[derive(Debug, PartialEq)]
pub enum ExpressionNode {
    Number(String),
    Text(String),
    Char(char),
    Bool(bool),
    Identifier(String),
    Binary(Box<Expression>, Operator, Box<Expression>),
    EOF,
}

/// An expression paired with the position it spans.
#[derive(Debug, PartialEq)]
pub struct Expression {
    pub node: ExpressionNode,
    pub pos: Position,
}

pub ghost enum ENodeV {
    Number(Seq<char>),
    Text(Seq<char>),
    Char(char),
    Bool(bool),
    Identifier(Seq<char>),
    Binary(Box<ExprV>, Operator, Box<ExprV>),
    EOF,
}

pub ghost struct ExprV {
    pub node: ENodeV,
    pub pos: PosV,
}

pub open spec fn expr_view(e: Expression) -> ExprV
    decreases e,
{
    ExprV {
        node: match e.node {
            ExpressionNode::Number(s) => ENodeV::Number(s@),
            ExpressionNode::Text(s) => ENodeV::Text(s@),
            ExpressionNode::Char(c) => ENodeV::Char(c),
            ExpressionNode::Bool(b) => ENodeV::Bool(b),
            ExpressionNode::Identifier(s) => ENodeV::Identifier(s@),
            ExpressionNode::Binary(l, op, r) => ENodeV::Binary(
                Box::new(expr_view(*l)),
                op,
                Box::new(expr_view(*r)),
            ),
            ExpressionNode::EOF => ENodeV::EOF,
        },
        pos: e.pos@,
    }
}

impl View for Expression {
    type V = ExprV;

    open spec fn view(&self) -> ExprV {
        expr_view(*self)
    }
}

impl Expression {
    pub fn new(node: ExpressionNode, pos: Position) -> (e: Expression)
        ensures
            e == (Expression { node, pos }),
    {
        Expression { node, pos }
    }
}

/// A statement node: a bare expression, an assignment `target = value`, or
/// the header of a table/record block introduced by a trailing colon.
#[derive(Debug, PartialEq)]
pub enum StatementNode {
    Expression(Expression),
    Assignment(Expression, Expression),
    Table(Expression),
}

/// A statement paired with the position it spans.
#[derive(Debug, PartialEq)]
pub struct Statement {
    pub node: StatementNode,
    pub pos: Position,
}

pub ghost enum SNodeV {
    Expression(ExprV),
    Assignment(ExprV, ExprV),
    Table(ExprV),
}

pub ghost struct StmtV {
    pub node: SNodeV,
    pub pos: PosV,
}

pub open spec fn stmt_view(s: Statement) -> StmtV {
    StmtV {
        node: match s.node {
            StatementNode::Expression(e) => SNodeV::Expression(expr_view(e)),
            StatementNode::Assignment(t, v) => SNodeV::Assignment(expr_view(t), expr_view(v)),
            StatementNode::Table(e) => SNodeV::Table(expr_view(e)),
        },
        pos: s.pos@,
    }
}

impl View for Statement {
    type V = StmtV;

    open spec fn view(&self) -> StmtV {
        stmt_view(*self)
    }
}

impl Statement {
    pub fn new(node: StatementNode, pos: Position) -> (s: Statement)
        ensures
            s == (Statement { node, pos }),
    {
        Statement { node, pos }
    }
}

} // verus!

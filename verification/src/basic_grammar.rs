use vstd::prelude::*;
use crate::grammar::{BinOpType, vec_view};

verus! {

// ---------------------------------------------------------------------------------------------
// Syntax tree of the basic snippet language: snippets with an argument list, `static`
// initializers and assignments, followed by connections between snippets.
// ---------------------------------------------------------------------------------------------

#[derive(Debug, PartialEq)]
pub enum Prog {
    Prog(Snippets, Connections),
}

#[derive(Debug, PartialEq)]
pub enum Snippets {
    Snippets(Vec<Snippet>),
}

#[derive(Debug, PartialEq)]
pub enum Snippet {
    Snippet(Identifier, IdList, Initializers, Statements),
}

/// A list of connections `(from, to)`, innermost last.
#[derive(Debug, PartialEq)]
pub enum Connections {
    Connections(Identifier, Identifier, Box<Connections>),
    Empty(),
}

#[derive(Debug, PartialEq)]
pub enum IdList {
    IdList(Vec<Identifier>),
}

#[derive(Debug, PartialEq)]
pub enum Initializers {
    Initializers(Vec<Initializer>),
}

#[derive(Debug, PartialEq)]
pub enum Initializer {
    Initializer(Identifier, Value),
}

#[derive(Debug, PartialEq)]
pub enum Statements {
    Statements(Vec<Statement>),
}

#[derive(Debug, PartialEq)]
pub enum Statement {
    Statement(Identifier, Expr),
}

#[derive(Debug, PartialEq)]
pub enum Expr {
    Expr(Operand, ExprRight),
}

#[derive(Debug, PartialEq)]
pub enum ExprRight {
    BinOp(BinOpType, Operand),
    Cond(Operand, Operand),
    Empty(),
}

#[derive(Debug, PartialEq)]
pub enum Identifier {
    Identifier(String),
}

#[derive(Debug, PartialEq)]
pub enum Operand {
    Identifier(Identifier),
    Value(Value),
}

#[derive(Debug, PartialEq, Eq, Structural, Clone, Copy)]
pub enum Value {
    Value(u32),
}

// ---------------------------------------------------------------------------------------------
// Mathematical model
// ---------------------------------------------------------------------------------------------

pub struct SpecBasicProg {
    pub snippets: Seq<SpecBasicSnippet>,
    pub connections: Seq<(Seq<char>, Seq<char>)>,
}

pub struct SpecBasicSnippet {
    pub name: Seq<char>,
    pub arguments: Seq<Seq<char>>,
    pub initializers: Seq<(Seq<char>, u32)>,
    pub statements: Seq<SpecBasicStatement>,
}

pub struct SpecBasicStatement {
    pub target: Seq<char>,
    pub expr: SpecBasicExpr,
}

pub struct SpecBasicExpr {
    pub op1: SpecBasicOperand,
    pub expr_right: SpecBasicExprRight,
}

pub enum SpecBasicExprRight {
    BinOp(BinOpType, SpecBasicOperand),
    Cond(SpecBasicOperand, SpecBasicOperand),
    Empty,
}

pub enum SpecBasicOperand {
    Identifier(Seq<char>),
    Value(u32),
}

impl View for Identifier {
    type V = Seq<char>;

    open spec fn view(&self) -> Seq<char> {
        match self {
            Identifier::Identifier(s) => s@,
        }
    }
}

impl View for Value {
    type V = u32;

    open spec fn view(&self) -> u32 {
        match self {
            Value::Value(v) => *v,
        }
    }
}

impl View for Operand {
    type V = SpecBasicOperand;

    open spec fn view(&self) -> SpecBasicOperand {
        match self {
            Operand::Identifier(id) => SpecBasicOperand::Identifier(id@),
            Operand::Value(v) => SpecBasicOperand::Value(v@),
        }
    }
}

impl View for ExprRight {
    type V = SpecBasicExprRight;

    open spec fn view(&self) -> SpecBasicExprRight {
        match self {
            ExprRight::BinOp(op, o) => SpecBasicExprRight::BinOp(*op, o@),
            ExprRight::Cond(a, b) => SpecBasicExprRight::Cond(a@, b@),
            ExprRight::Empty() => SpecBasicExprRight::Empty,
        }
    }
}

impl View for Expr {
    type V = SpecBasicExpr;

    open spec fn view(&self) -> SpecBasicExpr {
        match self {
            Expr::Expr(o, r) => SpecBasicExpr { op1: o@, expr_right: r@ },
        }
    }
}

impl View for Statement {
    type V = SpecBasicStatement;

    open spec fn view(&self) -> SpecBasicStatement {
        match self {
            Statement::Statement(id, e) => SpecBasicStatement { target: id@, expr: e@ },
        }
    }
}

impl View for Statements {
    type V = Seq<SpecBasicStatement>;

    open spec fn view(&self) -> Seq<SpecBasicStatement> {
        match self {
            Statements::Statements(v) => vec_view(v@),
        }
    }
}

impl View for Initializer {
    type V = (Seq<char>, u32);

    open spec fn view(&self) -> (Seq<char>, u32) {
        match self {
            Initializer::Initializer(id, v) => (id@, v@),
        }
    }
}

impl View for Initializers {
    type V = Seq<(Seq<char>, u32)>;

    open spec fn view(&self) -> Seq<(Seq<char>, u32)> {
        match self {
            Initializers::Initializers(v) => vec_view(v@),
        }
    }
}

impl View for IdList {
    type V = Seq<Seq<char>>;

    open spec fn view(&self) -> Seq<Seq<char>> {
        match self {
            IdList::IdList(v) => vec_view(v@),
        }
    }
}

impl View for Snippet {
    type V = SpecBasicSnippet;

    open spec fn view(&self) -> SpecBasicSnippet {
        match self {
            Snippet::Snippet(id, args, inits, stmts) => SpecBasicSnippet {
                name: id@,
                arguments: args@,
                initializers: inits@,
                statements: stmts@,
            },
        }
    }
}

impl View for Snippets {
    type V = Seq<SpecBasicSnippet>;

    open spec fn view(&self) -> Seq<SpecBasicSnippet> {
        match self {
            Snippets::Snippets(v) => vec_view(v@),
        }
    }
}

pub open spec fn connections_view(c: Connections) -> Seq<(Seq<char>, Seq<char>)>
    decreases c,
{
    match c {
        Connections::Connections(a, b, rest) => seq![(a@, b@)] + connections_view(*rest),
        Connections::Empty() => Seq::empty(),
    }
}

impl View for Connections {
    type V = Seq<(Seq<char>, Seq<char>)>;

    open spec fn view(&self) -> Seq<(Seq<char>, Seq<char>)> {
        connections_view(*self)
    }
}

impl View for Prog {
    type V = SpecBasicProg;

    open spec fn view(&self) -> SpecBasicProg {
        match self {
            Prog::Prog(s, c) => SpecBasicProg { snippets: s@, connections: c@ },
        }
    }
}

impl Identifier {
    /// The name.
    pub fn get_string(&self) -> (s: &str)
        ensures s@ == self@,
    {
        match self {
            Identifier::Identifier(s) => s.as_str(),
        }
    }
}

impl Operand {
    pub fn is_id(&self) -> (b: bool)
        ensures b == (self is Identifier),
    {
        match self {
            Operand::Identifier(_) => true,
            _ => false,
        }
    }

    /// The name of an identifier operand.
    pub fn get_id(&self) -> (s: &str)
        requires self is Identifier,
        ensures self@ == SpecBasicOperand::Identifier(s@),
    {
        match self {
            Operand::Identifier(id) => id.get_string(),
            _ => "",
        }
    }
}

} // verus!

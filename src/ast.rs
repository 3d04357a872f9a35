use crate::error::{PosModel, Position};
use vstd::prelude::*;

verus! {

/// The functions that the host provides to every program.
#[derive(Debug, Clone, Copy, PartialEq, Eq, Structural)]
pub enum Native {
    Print,
}

/// A run-time value. A number is an IEEE-754 binary64 value, held as its
/// bit pattern.
#[derive(Debug, Clone, Copy, PartialEq, Eq, Structural)]
pub enum Value {
    Nothing,
    Number(u64),
    True,
    False,
    NativeFunction(Native),
}

impl Value {
    pub open spec fn spec_from_bool(v: bool) -> Value {
        if v { Value::True } else { Value::False }
    }

    /// `True` or `False`.
    pub fn from_bool(v: bool) -> (r: Value)
        ensures
            r == Value::spec_from_bool(v),
    {
        if v { Value::True } else { Value::False }
    }
}

/// The binary operators.
#[derive(Debug, Clone, Copy, PartialEq, Eq, Structural)]
pub enum OpType {
    Add,
    Subtract,
    Multiply,
    Divide,
    Equal,
    GreaterThan,
    LessThan,
}

#[derive(Debug)]
pub struct Block {
    pub statements: Vec<Exp>,
    pub pos: Position,
}

#[derive(Debug)]
pub struct Call {
    pub name: String,
    pub args: Vec<Exp>,
    pub pos: Position,
}

#[derive(Debug)]
pub struct Literal {
    pub value: Value,
    pub pos: Position,
}

#[derive(Debug)]
pub struct Assignment {
    pub name: String,
    pub value: Box<Exp>,
    pub pos: Position,
}

#[derive(Debug)]
pub struct Variable {
    pub name: String,
    pub pos: Position,
}

#[derive(Debug)]
pub struct Operator {
    pub op_type: OpType,
    pub lhs: Box<Exp>,
    pub rhs: Box<Exp>,
    pub pos: Position,
}

/// A node of the syntax tree; each node owns its children.
#[derive(Debug)]
pub enum Exp {
    Block(Block),
    Call(Call),
    Literal(Literal),
    Assignment(Assignment),
    Variable(Variable),
    Operator(Operator),
}

/// The mathematical value of an [`Exp`].
pub enum SExp {
    Block(Seq<SExp>, PosModel),
    Call(Seq<char>, Seq<SExp>, PosModel),
    Literal(Value, PosModel),
    Assignment(Seq<char>, Box<SExp>, PosModel),
    Variable(Seq<char>, PosModel),
    Operator(OpType, Box<SExp>, Box<SExp>, PosModel),
}

impl SExp {
    pub open spec fn pos(self) -> PosModel {
        match self {
            SExp::Block(_, p) => p,
            SExp::Call(_, _, p) => p,
            SExp::Literal(_, p) => p,
            SExp::Assignment(_, _, p) => p,
            SExp::Variable(_, p) => p,
            SExp::Operator(_, _, _, p) => p,
        }
    }
}

/// The models of a list of nodes, in order.
pub open spec fn exps_model(es: Seq<Exp>) -> Seq<SExp>
    decreases es,
{
    Seq::new(es.len(), |i: int| if 0 <= i < es.len() { exp_model(es[i]) } else { arbitrary() })
}

/// The model of a node.
pub open spec fn exp_model(e: Exp) -> SExp
    decreases e,
{
    match e {
        Exp::Block(b) => SExp::Block(exps_model(b.statements@), b.pos@),
        Exp::Call(c) => SExp::Call(c.name@, exps_model(c.args@), c.pos@),
        Exp::Literal(l) => SExp::Literal(l.value, l.pos@),
        Exp::Assignment(a) => SExp::Assignment(a.name@, Box::new(exp_model(*a.value)), a.pos@),
        Exp::Variable(v) => SExp::Variable(v.name@, v.pos@),
        Exp::Operator(o) => SExp::Operator(
            o.op_type,
            Box::new(exp_model(*o.lhs)),
            Box::new(exp_model(*o.rhs)),
            o.pos@,
        ),
    }
}

impl Exp {
    pub fn new_block(statements: Vec<Exp>, pos: Position) -> (r: Exp)
        ensures
            exp_model(r) == SExp::Block(exps_model(statements@), pos@),
    {
        Exp::Block(Block { statements, pos })
    }

    pub fn new_call(name: String, args: Vec<Exp>, pos: Position) -> (r: Exp)
        ensures
            exp_model(r) == SExp::Call(name@, exps_model(args@), pos@),
    {
        Exp::Call(Call { name, args, pos })
    }

    pub fn new_literal(value: Value, pos: Position) -> (r: Exp)
        ensures
            exp_model(r) == SExp::Literal(value, pos@),
    {
        Exp::Literal(Literal { value, pos })
    }

    pub fn new_assignment(name: String, value: Box<Exp>, pos: Position) -> (r: Exp)
        ensures
            exp_model(r) == SExp::Assignment(name@, Box::new(exp_model(*value)), pos@),
    {
        Exp::Assignment(Assignment { name, value, pos })
    }

    pub fn new_variable(name: String, pos: Position) -> (r: Exp)
        ensures
            exp_model(r) == SExp::Variable(name@, pos@),
    {
        Exp::Variable(Variable { name, pos })
    }

    pub fn new_operator(op_type: OpType, lhs: Box<Exp>, rhs: Box<Exp>, pos: Position) -> (r: Exp)
        ensures
            exp_model(r) == SExp::Operator(
                op_type,
                Box::new(exp_model(*lhs)),
                Box::new(exp_model(*rhs)),
                pos@,
            ),
    {
        Exp::Operator(Operator { op_type, lhs, rhs, pos })
    }

    /// Where the node starts.
    pub fn position(&self) -> (r: Position)
        ensures
            r@ == exp_model(*self).pos(),
    {
        let p = match self {
            Exp::Block(b) => &b.pos,
            Exp::Call(c) => &c.pos,
            Exp::Literal(l) => &l.pos,
            Exp::Assignment(a) => &a.pos,
            Exp::Variable(v) => &v.pos,
            Exp::Operator(o) => &o.pos,
        };
        p.with_pos(p.line, p.column)
    }
}

} // verus!

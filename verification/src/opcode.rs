use vstd::prelude::*;

use crate::value::{SpecValue, Value};

verus! {

/// One bytecode instruction; a closed set.  `Constant` carries the value to
/// push, and the three global-variable instructions carry the variable name.
#[derive(Debug, Clone, PartialEq)]
pub enum OpCode {
    Constant(Value),
    Not,
    Negate,
    Print,
    Return,
    Nil,
    True,
    False,
    Equal,
    Greater,
    Less,
    Add,
    Subtract,
    Multiply,
    Divide,
    Pop,
    DefineGlobal(String),
    GetGlobal(String),
    SetGlobal(String),
}

/// Mathematical image of an instruction: payloads become their views.
pub enum SpecOp {
    Constant(SpecValue),
    Not,
    Negate,
    Print,
    Return,
    Nil,
    True,
    False,
    Equal,
    Greater,
    Less,
    Add,
    Subtract,
    Multiply,
    Divide,
    Pop,
    DefineGlobal(Seq<char>),
    GetGlobal(Seq<char>),
    SetGlobal(Seq<char>),
}

impl OpCode {
    /// An exact copy, by value.
    pub fn duplicate(&self) -> (r: OpCode)
        ensures
            r.deep_view() == self.deep_view(),
    {
        match self {
            OpCode::Constant(v) => OpCode::Constant(v.duplicate()),
            OpCode::Not => OpCode::Not,
            OpCode::Negate => OpCode::Negate,
            OpCode::Print => OpCode::Print,
            OpCode::Return => OpCode::Return,
            OpCode::Nil => OpCode::Nil,
            OpCode::True => OpCode::True,
            OpCode::False => OpCode::False,
            OpCode::Equal => OpCode::Equal,
            OpCode::Greater => OpCode::Greater,
            OpCode::Less => OpCode::Less,
            OpCode::Add => OpCode::Add,
            OpCode::Subtract => OpCode::Subtract,
            OpCode::Multiply => OpCode::Multiply,
            OpCode::Divide => OpCode::Divide,
            OpCode::Pop => OpCode::Pop,
            OpCode::DefineGlobal(n) => OpCode::DefineGlobal(n.clone()),
            OpCode::GetGlobal(n) => OpCode::GetGlobal(n.clone()),
            OpCode::SetGlobal(n) => OpCode::SetGlobal(n.clone()),
        }
    }
}

impl DeepView for OpCode {
    type V = SpecOp;

    open spec fn deep_view(&self) -> SpecOp {
        match self {
            OpCode::Constant(v) => SpecOp::Constant(v@),
            OpCode::Not => SpecOp::Not,
            OpCode::Negate => SpecOp::Negate,
            OpCode::Print => SpecOp::Print,
            OpCode::Return => SpecOp::Return,
            OpCode::Nil => SpecOp::Nil,
            OpCode::True => SpecOp::True,
            OpCode::False => SpecOp::False,
            OpCode::Equal => SpecOp::Equal,
            OpCode::Greater => SpecOp::Greater,
            OpCode::Less => SpecOp::Less,
            OpCode::Add => SpecOp::Add,
            OpCode::Subtract => SpecOp::Subtract,
            OpCode::Multiply => SpecOp::Multiply,
            OpCode::Divide => SpecOp::Divide,
            OpCode::Pop => SpecOp::Pop,
            OpCode::DefineGlobal(n) => SpecOp::DefineGlobal(n@),
            OpCode::GetGlobal(n) => SpecOp::GetGlobal(n@),
            OpCode::SetGlobal(n) => SpecOp::SetGlobal(n@),
        }
    }
}

} // verus!

use vstd::prelude::*;

verus! {

/// A numeric literal of the WHILE language.
pub type Value = i64;

/// A variable name of the WHILE language.
pub type Name = String;

/// An arithmetic expression of the WHILE language.
#[derive(Debug, PartialEq, Eq, Hash)]
pub enum AExp {
    Variable(Name),
    Number(Value),
    ArithmeticOp(Box<AExp>, String, Box<AExp>),
}

/// A boolean expression of the WHILE language.
#[derive(Debug, PartialEq, Eq, Hash)]
pub enum BExp {
    Boolean(bool),
    Not(Box<BExp>),
    BooleanOp(Box<BExp>, String, Box<BExp>),
    RelationalOp(Box<AExp>, String, Box<AExp>),
}

impl AExp {
    /// A structural copy of the expression.
    pub fn duplicate(&self) -> (r: AExp)
        ensures
            r == *self,
        decreases self,
    {
        match self {
            AExp::Variable(x) => AExp::Variable(x.clone()),
            AExp::Number(n) => AExp::Number(*n),
            AExp::ArithmeticOp(a, op, b) => AExp::ArithmeticOp(
                Box::new(a.duplicate()),
                op.clone(),
                Box::new(b.duplicate()),
            ),
        }
    }
}

impl BExp {
    /// A structural copy of the expression.
    pub fn duplicate(&self) -> (r: BExp)
        ensures
            r == *self,
        decreases self,
    {
        match self {
            BExp::Boolean(b) => BExp::Boolean(*b),
            BExp::Not(b) => BExp::Not(Box::new(b.duplicate())),
            BExp::BooleanOp(a, op, b) => BExp::BooleanOp(
                Box::new(a.duplicate()),
                op.clone(),
                Box::new(b.duplicate()),
            ),
            BExp::RelationalOp(a, op, b) => BExp::RelationalOp(
                Box::new(a.duplicate()),
                op.clone(),
                Box::new(b.duplicate()),
            ),
        }
    }
}

} // verus!

use vstd::prelude::*;

verus! {

/// A dense, positive identifier of one syntax-tree node.
pub type Label = usize;

/// A one-letter identifier; all occurrences of one name share one slot.
pub type Variable = char;

/// A numeric literal of the functional language.
pub type Constant = i32;

/// The operator of a binary operation; it plays no part in the analysis.
#[derive(Debug, Clone, Copy, PartialEq, Eq, Hash, Structural)]
pub enum Operator {
    Or,
    And,
    Le,
    Equal,
    NotEqual,
    Ge,
    Lt,
    Gt,
    Add,
    Sub,
    Mul,
    Div,
}

} // verus!

use vstd::prelude::*;

use crate::term::Term;
use crate::types::{Label, Variable};

verus! {

/// An operand of a constraint: a solver node, or a fixed singleton set.
#[derive(Debug, PartialEq, Eq, Hash)]
pub enum ConSet {
    /// C(`l`): the values that may result at label `l`
    Cache(Label),
    /// r(`x`): the values that may be bound to `x`
    Env(Variable),
    /// {`t`}: the fixed set that holds `t` alone
    SingleTerm(Term),
}

/// A subset constraint between two operands, possibly behind a guard.
#[derive(Debug, PartialEq, Eq, Hash)]
pub enum Constraint {
    /// `LHS` ⊆ `RHS`
    Unconditional(ConSet, ConSet),
    /// ({`t`} ⊆ `G`) => `LHS` ⊆ `RHS`
    Conditional((Term, ConSet), ConSet, ConSet),
}

} // verus!

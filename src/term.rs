use vstd::prelude::*;

use crate::expression::{expression_eq, Expression};
use crate::types::{Constant, Operator, Variable};

verus! {

/// The syntactic shape of one node of the functional language.
#[derive(Debug, Hash)]
pub enum Term {
    /// c
    Constant(Constant),
    /// `x`
    Variable(Variable),
    /// fn `x` -> `e0`
    Closure(Variable, Box<Expression>),
    /// fun `f` `x` -> `e0`
    RecursiveClosure(Variable, Variable, Box<Expression>),
    /// (`e1` `e2`)
    Application(Box<Expression>, Box<Expression>),
    /// if `e0` then `e1` else `e2`
    IfThenElse(Box<Expression>, Box<Expression>, Box<Expression>),
    /// let `x` = `e1` in `e2`
    Let(Variable, Box<Expression>, Box<Expression>),
    /// (`e1` `op` `e2`)
    BinaryOp(Box<Expression>, Operator, Box<Expression>),
}

impl Term {
    /// A structural copy of the term.
    pub fn duplicate(&self) -> (r: Term)
        ensures
            r == *self,
        decreases self,
    {
        match self {
            Term::Constant(c) => Term::Constant(*c),
            Term::Variable(x) => Term::Variable(*x),
            Term::Closure(x, e0) => Term::Closure(*x, Box::new(e0.duplicate())),
            Term::RecursiveClosure(f, x, e0) => Term::RecursiveClosure(
                *f,
                *x,
                Box::new(e0.duplicate()),
            ),
            Term::Application(e1, e2) => Term::Application(
                Box::new(e1.duplicate()),
                Box::new(e2.duplicate()),
            ),
            Term::IfThenElse(e0, e1, e2) => Term::IfThenElse(
                Box::new(e0.duplicate()),
                Box::new(e1.duplicate()),
                Box::new(e2.duplicate()),
            ),
            Term::Let(x, e1, e2) => Term::Let(
                *x,
                Box::new(e1.duplicate()),
                Box::new(e2.duplicate()),
            ),
            Term::BinaryOp(e1, op, e2) => Term::BinaryOp(
                Box::new(e1.duplicate()),
                *op,
                Box::new(e2.duplicate()),
            ),
        }
    }
}

/// Structural equality of two terms.
pub fn term_eq(a: &Term, b: &Term) -> (r: bool)
    ensures
        r == (*a == *b),
    decreases a,
{
    match (a, b) {
        (Term::Constant(c), Term::Constant(d)) => *c == *d,
        (Term::Variable(x), Term::Variable(y)) => *x == *y,
        (Term::Closure(x, e), Term::Closure(y, g)) => *x == *y && expression_eq(e, g),
        (Term::RecursiveClosure(f, x, e), Term::RecursiveClosure(h, y, g)) => {
            *f == *h && *x == *y && expression_eq(e, g)
        },
        (Term::Application(e1, e2), Term::Application(g1, g2)) => {
            expression_eq(e1, g1) && expression_eq(e2, g2)
        },
        (Term::IfThenElse(e0, e1, e2), Term::IfThenElse(g0, g1, g2)) => {
            expression_eq(e0, g0) && expression_eq(e1, g1) && expression_eq(e2, g2)
        },
        (Term::Let(x, e1, e2), Term::Let(y, g1, g2)) => {
            *x == *y && expression_eq(e1, g1) && expression_eq(e2, g2)
        },
        (Term::BinaryOp(e1, o, e2), Term::BinaryOp(g1, p, g2)) => {
            *o == *p && expression_eq(e1, g1) && expression_eq(e2, g2)
        },
        _ => false,
    }
}

impl PartialEq for Term {
    fn eq(&self, other: &Term) -> (r: bool) {
        term_eq(self, other)
    }
}

impl vstd::std_specs::cmp::PartialEqSpecImpl for Term {
    open spec fn obeys_eq_spec() -> bool {
        true
    }

    open spec fn eq_spec(&self, other: &Term) -> bool {
        *self == *other
    }
}

impl Eq for Term {
}

} // verus!

use vstd::prelude::*;

use crate::expression::Expression;
use crate::term::Term;
use crate::types::Label;

verus! {

/// The number of nodes of the tree.
pub open spec fn node_count(e: Expression) -> nat
    decreases e,
{
    1 + match e.term {
        Term::Constant(_) | Term::Variable(_) => 0,
        Term::Closure(_, e0) | Term::RecursiveClosure(_, _, e0) => node_count(*e0),
        Term::Application(e1, e2) | Term::Let(_, e1, e2) | Term::BinaryOp(e1, _, e2) => node_count(*e1)
            + node_count(*e2),
        Term::IfThenElse(e0, e1, e2) => node_count(*e0) + node_count(*e1) + node_count(*e2),
    }
}

/// The tree with its nodes numbered from `start` in post-order: the
/// children first, left to right, then the node itself.
pub open spec fn relabelled(e: Expression, start: int) -> Expression
    decreases e,
{
    let own = (start + node_count(e) - 1) as Label;
    match e.term {
        Term::Closure(x, e0) => Expression {
            label: own,
            term: Term::Closure(x, Box::new(relabelled(*e0, start))),
        },
        Term::RecursiveClosure(f, x, e0) => Expression {
            label: own,
            term: Term::RecursiveClosure(f, x, Box::new(relabelled(*e0, start))),
        },
        Term::Application(e1, e2) => Expression {
            label: own,
            term: Term::Application(
                Box::new(relabelled(*e1, start)),
                Box::new(relabelled(*e2, start + node_count(*e1))),
            ),
        },
        Term::IfThenElse(e0, e1, e2) => Expression {
            label: own,
            term: Term::IfThenElse(
                Box::new(relabelled(*e0, start)),
                Box::new(relabelled(*e1, start + node_count(*e0))),
                Box::new(relabelled(*e2, start + node_count(*e0) + node_count(*e1))),
            ),
        },
        Term::Let(x, e1, e2) => Expression {
            label: own,
            term: Term::Let(
                x,
                Box::new(relabelled(*e1, start)),
                Box::new(relabelled(*e2, start + node_count(*e1))),
            ),
        },
        Term::BinaryOp(e1, op, e2) => Expression {
            label: own,
            term: Term::BinaryOp(
                Box::new(relabelled(*e1, start)),
                op,
                Box::new(relabelled(*e2, start + node_count(*e1))),
            ),
        },
        _ => Expression { label: own, term: e.term },
    }
}

/// Numbers the nodes of `expr` from `start` in post-order and returns the
/// tree with the label that follows its last one.
pub fn relabel(expr: Expression, start: Label) -> (r: (Expression, Label))
    requires
        start + node_count(expr) <= usize::MAX,
    ensures
        r.0 == relabelled(expr, start as int),
        r.1 == start + node_count(expr),
    decreases expr,
{
    match expr.term {
        Term::Closure(x, e0) => {
            let (new_e0, next) = relabel(*e0, start);
            (Expression { term: Term::Closure(x, Box::new(new_e0)), label: next }, next + 1)
        },
        Term::RecursiveClosure(f, x, e0) => {
            let (new_e0, next) = relabel(*e0, start);
            (Expression { term: Term::RecursiveClosure(f, x, Box::new(new_e0)), label: next }, next + 1)
        },
        Term::Application(e1, e2) => {
            let (new_e1, e2_start) = relabel(*e1, start);
            let (new_e2, next) = relabel(*e2, e2_start);
            (
                Expression { term: Term::Application(Box::new(new_e1), Box::new(new_e2)), label: next },
                next + 1,
            )
        },
        Term::IfThenElse(e0, e1, e2) => {
            let (new_e0, e1_start) = relabel(*e0, start);
            let (new_e1, e2_start) = relabel(*e1, e1_start);
            let (new_e2, next) = relabel(*e2, e2_start);
            (
                Expression {
                    term: Term::IfThenElse(Box::new(new_e0), Box::new(new_e1), Box::new(new_e2)),
                    label: next,
                },
                next + 1,
            )
        },
        Term::Let(x, e1, e2) => {
            let (new_e1, e2_start) = relabel(*e1, start);
            let (new_e2, next) = relabel(*e2, e2_start);
            (Expression { term: Term::Let(x, Box::new(new_e1), Box::new(new_e2)), label: next }, next + 1)
        },
        Term::BinaryOp(e1, op, e2) => {
            let (new_e1, e2_start) = relabel(*e1, start);
            let (new_e2, next) = relabel(*e2, e2_start);
            (
                Expression { term: Term::BinaryOp(Box::new(new_e1), op, Box::new(new_e2)), label: next },
                next + 1,
            )
        },
        term => (Expression { term, label: start }, start + 1),
    }
}

} // verus!

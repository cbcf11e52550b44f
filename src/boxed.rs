use vstd::prelude::*;

use crate::block::{AssignmentBlock, Block, SkipBlock, TestBlock};
use crate::statement::Statement;
use crate::types::Label;
use crate::while_expr::{AExp, BExp, Name};

verus! {

pub fn assignment(label: Label, var: Name, expr: AExp) -> (r: Box<Statement>)
    ensures
        *r == Statement::Atom(Block::Assignment(AssignmentBlock { label, var, expr })),
{
    Box::new(Statement::Atom(Block::assignment(label, var, expr)))
}

pub fn skip(label: Label) -> (r: Box<Statement>)
    ensures
        *r == Statement::Atom(Block::Skip(SkipBlock { label })),
{
    Box::new(Statement::Atom(Block::skip(label)))
}

pub fn test(label: Label, expr: BExp) -> (r: Box<Statement>)
    ensures
        *r == Statement::Atom(Block::Test(TestBlock { label, expr })),
{
    Box::new(Statement::Atom(Block::test(label, expr)))
}

pub fn sequence(stmt1: Box<Statement>, stmt2: Box<Statement>) -> (r: Box<Statement>)
    ensures
        *r == Statement::Sequence(stmt1, stmt2),
{
    Box::new(Statement::Sequence(stmt1, stmt2))
}

pub fn if_then_else(test: TestBlock, stmt1: Box<Statement>, stmt2: Box<Statement>) -> (r: Box<Statement>)
    ensures
        *r == Statement::IfThenElse(test, stmt1, stmt2),
{
    Box::new(Statement::IfThenElse(test, stmt1, stmt2))
}

pub fn while_(test: TestBlock, stmt1: Box<Statement>) -> (r: Box<Statement>)
    ensures
        *r == Statement::While(test, stmt1),
{
    Box::new(Statement::While(test, stmt1))
}

} // verus!

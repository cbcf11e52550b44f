use vstd::prelude::*;

use crate::block::{Block, TestBlock};
use crate::types::Label;

verus! {

/// A statement of the WHILE language.
#[derive(Debug, PartialEq, Eq)]
pub enum Statement {
    /// \[X := a\], \[skip\], \[b\]
    Atom(Block),
    /// S1; S2
    Sequence(Box<Statement>, Box<Statement>),
    /// if \[b\] then S1 else S2
    IfThenElse(TestBlock, Box<Statement>, Box<Statement>),
    /// while \[b\] do S
    While(TestBlock, Box<Statement>),
    /// the empty program
    Empty,
}

impl Statement {
    /// The statement starts with a block, so that it has an initial label.
    pub open spec fn has_init(self) -> bool
        decreases self,
    {
        match self {
            Statement::Atom(_) | Statement::IfThenElse(_, _, _) | Statement::While(_, _) => true,
            Statement::Sequence(s1, _) => s1.has_init(),
            Statement::Empty => false,
        }
    }

    /// The label of the block that runs first.
    pub open spec fn init_of(self) -> Label
        decreases self,
    {
        match self {
            Statement::Atom(b) => b.label_of(),
            Statement::Sequence(s1, _) => s1.init_of(),
            Statement::IfThenElse(t, _, _) => t.label,
            Statement::While(t, _) => t.label,
            Statement::Empty => 0,
        }
    }

    /// The statement with `next` put after it; an empty statement vanishes
    /// and sequences stay nested to the right.
    pub open spec fn appended(self, next: Statement) -> Statement
        decreases self,
    {
        match self {
            Statement::Empty => next,
            Statement::Sequence(s1, s2) => Statement::Sequence(s1, Box::new(s2.appended(next))),
            _ => Statement::Sequence(Box::new(self), Box::new(next)),
        }
    }

    /// The label of the block that runs first.
    pub fn get_label(&self) -> (r: Label)
        requires
            self.has_init(),
        ensures
            r == self.init_of(),
        decreases self,
    {
        match self {
            Statement::Atom(block) => block.get_label(),
            Statement::Sequence(stmt1, _) => stmt1.get_label(),
            Statement::IfThenElse(test, _, _) => test.label,
            Statement::While(test, _) => test.label,
            Statement::Empty => 0,
        }
    }

    /// Puts `next` after this statement.
    pub fn append(self, next: Statement) -> (r: Statement)
        ensures
            r == self.appended(next),
        decreases self,
    {
        match self {
            Statement::Empty => next,
            Statement::Sequence(stmt1, stmt2) => Statement::Sequence(stmt1, Box::new((*stmt2).append(next))),
            other_first => Statement::Sequence(Box::new(other_first), Box::new(next)),
        }
    }

    /// A structural copy of the statement.
    pub fn duplicate(&self) -> (r: Statement)
        ensures
            r == *self,
        decreases self,
    {
        match self {
            Statement::Atom(b) => Statement::Atom(b.duplicate()),
            Statement::Sequence(s1, s2) => Statement::Sequence(
                Box::new(s1.duplicate()),
                Box::new(s2.duplicate()),
            ),
            Statement::IfThenElse(t, s1, s2) => Statement::IfThenElse(
                t.duplicate(),
                Box::new(s1.duplicate()),
                Box::new(s2.duplicate()),
            ),
            Statement::While(t, s1) => Statement::While(t.duplicate(), Box::new(s1.duplicate())),
            Statement::Empty => Statement::Empty,
        }
    }
}

} // verus!

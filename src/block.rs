use vstd::prelude::*;

use crate::types::Label;
use crate::while_expr::{AExp, BExp, Name};

verus! {

/// A single elementary statement of a WHILE program.
#[derive(Debug, PartialEq, Eq, Hash)]
pub enum Block {
    Assignment(AssignmentBlock),
    Skip(SkipBlock),
    Test(TestBlock),
}

/// `[x := a]^l`
#[derive(Debug, PartialEq, Eq, Hash)]
pub struct AssignmentBlock {
    pub label: Label,
    pub var: Name,
    pub expr: AExp,
}

/// `[skip]^l`
#[derive(Debug, PartialEq, Eq, Hash)]
pub struct SkipBlock {
    pub label: Label,
}

/// `[b]^l`
#[derive(Debug, PartialEq, Eq, Hash)]
pub struct TestBlock {
    pub label: Label,
    pub expr: BExp,
}

impl Block {
    /// The label that the block carries.
    pub open spec fn label_of(self) -> Label {
        match self {
            Block::Assignment(b) => b.label,
            Block::Skip(b) => b.label,
            Block::Test(b) => b.label,
        }
    }

    pub fn get_label(&self) -> (r: Label)
        ensures
            r == self.label_of(),
    {
        match self {
            Block::Assignment(b) => b.label,
            Block::Skip(b) => b.label,
            Block::Test(b) => b.label,
        }
    }

    /// `[var := expr]^label`
    pub open spec fn assignment_spec(label: Label, var: Name, expr: AExp) -> Block {
        Block::Assignment(AssignmentBlock { label, var, expr })
    }

    /// `[skip]^label`
    pub open spec fn skip_spec(label: Label) -> Block {
        Block::Skip(SkipBlock { label })
    }

    /// `[expr]^label`
    pub open spec fn test_spec(label: Label, expr: BExp) -> Block {
        Block::Test(TestBlock { label, expr })
    }

    pub fn assignment(label: Label, var: Name, expr: AExp) -> (r: Self)
        ensures
            r == Block::assignment_spec(label, var, expr),
    {
        Block::Assignment(AssignmentBlock { label, var, expr })
    }

    pub fn skip(label: Label) -> (r: Self)
        ensures
            r == Block::skip_spec(label),
    {
        Block::Skip(SkipBlock { label })
    }

    pub fn test(label: Label, expr: BExp) -> (r: Self)
        ensures
            r == Block::test_spec(label, expr),
    {
        Block::Test(TestBlock { label, expr })
    }

    /// A structural copy of the block.
    pub fn duplicate(&self) -> (r: Block)
        ensures
            r == *self,
    {
        match self {
            Block::Assignment(b) => Block::Assignment(
                AssignmentBlock { label: b.label, var: b.var.clone(), expr: b.expr.duplicate() },
            ),
            Block::Skip(b) => Block::Skip(SkipBlock { label: b.label }),
            Block::Test(b) => Block::Test(b.duplicate()),
        }
    }
}

impl TestBlock {
    /// A structural copy of the test.
    pub fn duplicate(&self) -> (r: TestBlock)
        ensures
            r == *self,
    {
        TestBlock { label: self.label, expr: self.expr.duplicate() }
    }
}

} // verus!

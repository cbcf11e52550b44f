use vstd::prelude::*;

use crate::block::{Block, TestBlock};
use crate::statement::Statement;
use crate::types::Label;
use crate::while_expr::{AExp, BExp, Name};

verus! {

/// The construct that a builder is in the middle of.
#[derive(Debug)]
pub enum BuilderType {
    Plain,
    /// If(Test)
    If(TestBlock),
    /// Else(Test, If-Block)
    Else(TestBlock, Statement),
    /// While(Test)
    While(TestBlock),
}

/// Builds a labelled statement block by block; an `if` or a `while` opens
/// a nested builder that its end closes again.
#[derive(Debug)]
pub struct StatementBuilder {
    /// keeps track of nesting
    pub btype: BuilderType,
    pub parent: Option<Box<StatementBuilder>>,
    pub contents: Statement,
    pub next_label: Label,
}

impl StatementBuilder {
    pub fn new(first_label: Label) -> (r: Self)
        ensures
            r.btype is Plain,
            r.parent is None,
            r.contents == Statement::Empty,
            r.next_label == first_label,
    {
        Self { parent: None, btype: BuilderType::Plain, contents: Statement::Empty, next_label: first_label }
    }

    /// Appends the block `[var := expr]` under the next label.
    pub fn assignment(self, var: Name, expr: AExp) -> (r: Self)
        requires
            self.next_label < usize::MAX,
        ensures
            r == (Self {
                contents: self.contents.appended(
                    Statement::Atom(Block::assignment_spec(self.next_label, var, expr)),
                ),
                next_label: (self.next_label + 1) as Label,
                ..self
            }),
    {
        let new_stmt = Statement::Atom(Block::assignment(self.next_label, var, expr));
        Self {
            parent: self.parent,
            btype: self.btype,
            contents: self.contents.append(new_stmt),
            next_label: self.next_label + 1,
        }
    }

    /// Appends the block `[skip]` under the next label.
    pub fn skip(self) -> (r: Self)
        requires
            self.next_label < usize::MAX,
        ensures
            r == (Self {
                contents: self.contents.appended(Statement::Atom(Block::skip_spec(self.next_label))),
                next_label: (self.next_label + 1) as Label,
                ..self
            }),
    {
        let new_stmt = Statement::Atom(Block::skip(self.next_label));
        Self {
            parent: self.parent,
            btype: self.btype,
            contents: self.contents.append(new_stmt),
            next_label: self.next_label + 1,
        }
    }

    /// Appends the block `[expr]` under the next label.
    pub fn test(self, expr: BExp) -> (r: Self)
        requires
            self.next_label < usize::MAX,
        ensures
            r == (Self {
                contents: self.contents.appended(Statement::Atom(Block::test_spec(self.next_label, expr))),
                next_label: (self.next_label + 1) as Label,
                ..self
            }),
    {
        let new_stmt = Statement::Atom(Block::test(self.next_label, expr));
        Self {
            parent: self.parent,
            btype: self.btype,
            contents: self.contents.append(new_stmt),
            next_label: self.next_label + 1,
        }
    }

    /// Opens the then-branch of an `if` whose test takes the next label.
    pub fn begin_if(self, test: BExp) -> (r: Self)
        requires
            self.next_label < usize::MAX,
        ensures
            r == (Self {
                parent: Some(Box::new(self)),
                btype: BuilderType::If(TestBlock { label: self.next_label, expr: test }),
                contents: Statement::Empty,
                next_label: (self.next_label + 1) as Label,
            }),
    {
        let next_label = self.next_label;
        Self {
            parent: Some(Box::new(self)),
            btype: BuilderType::If(TestBlock { label: next_label, expr: test }),
            contents: Statement::Empty,
            next_label: next_label + 1,
        }
    }

    /// Closes the then-branch and opens the else-branch.
    pub fn else_(self) -> (r: Self)
        requires
            self.btype is If,
            self.next_label < usize::MAX,
        ensures
            r == (Self {
                parent: self.parent,
                btype: BuilderType::Else(self.btype->If_0, self.contents),
                contents: Statement::Empty,
                next_label: (self.next_label + 1) as Label,
            }),
    {
        let next_label = self.next_label;
        match self.btype {
            BuilderType::If(test) => Self {
                parent: self.parent,
                btype: BuilderType::Else(test, self.contents),
                contents: Statement::Empty,
                next_label: next_label + 1,
            },
            _ => self,
        }
    }

    /// Closes the else-branch and appends the whole `if` to the enclosing builder.
    pub fn end_if(self) -> (r: Self)
        requires
            self.btype is Else,
            self.parent is Some,
        ensures
            ({
                let p = *self.parent->0;
                r == (Self {
                    contents: p.contents.appended(
                        Statement::IfThenElse(
                            self.btype->Else_0,
                            Box::new(self.btype->Else_1),
                            Box::new(self.contents),
                        ),
                    ),
                    next_label: self.next_label,
                    ..p
                })
            }),
    {
        let next_label = self.next_label;
        match (self.btype, self.parent) {
            (BuilderType::Else(test, stmt1), Some(parent)) => (*parent).append(
                Statement::IfThenElse(test, Box::new(stmt1), Box::new(self.contents)),
                next_label,
            ),
            (btype, parent) => Self { btype, parent, contents: self.contents, next_label },
        }
    }

    /// Opens the body of a `while` whose test takes the next label.
    pub fn begin_while(self, test: BExp) -> (r: Self)
        requires
            self.next_label < usize::MAX,
        ensures
            r == (Self {
                parent: Some(Box::new(self)),
                btype: BuilderType::While(TestBlock { label: self.next_label, expr: test }),
                contents: Statement::Empty,
                next_label: (self.next_label + 1) as Label,
            }),
    {
        let next_label = self.next_label;
        Self {
            parent: Some(Box::new(self)),
            btype: BuilderType::While(TestBlock { label: next_label, expr: test }),
            contents: Statement::Empty,
            next_label: next_label + 1,
        }
    }

    /// Closes the body and appends the whole `while` to the enclosing builder.
    pub fn end_while(self) -> (r: Self)
        requires
            self.btype is While,
            self.parent is Some,
        ensures
            ({
                let p = *self.parent->0;
                r == (Self {
                    contents: p.contents.appended(
                        Statement::While(self.btype->While_0, Box::new(self.contents)),
                    ),
                    next_label: self.next_label,
                    ..p
                })
            }),
    {
        let next_label = self.next_label;
        match (self.btype, self.parent) {
            (BuilderType::While(test), Some(parent)) => (*parent).append(
                Statement::While(test, Box::new(self.contents)),
                next_label,
            ),
            (btype, parent) => Self { btype, parent, contents: self.contents, next_label },
        }
    }

    /// The statement built so far.
    pub fn end(self) -> (r: Statement)
        ensures
            r == self.contents,
    {
        self.contents
    }

    fn append(self, stmt: Statement, next_label: Label) -> (r: Self)
        ensures
            r == (Self { contents: self.contents.appended(stmt), next_label, ..self }),
    {
        Self { parent: self.parent, btype: self.btype, contents: self.contents.append(stmt), next_label }
    }
}

} // verus!

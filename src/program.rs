use vstd::prelude::*;

use crate::block::{AssignmentBlock, Block, SkipBlock, TestBlock};
use crate::functions::{self, blocks_of, finals_of, flow_defined, flow_of, reversed};
use crate::statement::Statement;
use crate::types::Label;

verus! {

/// The number of labels that a statement carries: one per block and test.
pub open spec fn label_count(stmt: Statement) -> nat
    decreases stmt,
{
    match stmt {
        Statement::Atom(_) => 1,
        Statement::Sequence(s1, s2) => label_count(*s1) + label_count(*s2),
        Statement::IfThenElse(_, s1, s2) => 1 + label_count(*s1) + label_count(*s2),
        Statement::While(_, s1) => 1 + label_count(*s1),
        Statement::Empty => 0,
    }
}

/// The block with its label replaced by `l`.
pub open spec fn block_labelled(b: Block, l: Label) -> Block {
    match b {
        Block::Assignment(a) => Block::Assignment(AssignmentBlock { label: l, ..a }),
        Block::Skip(_) => Block::Skip(SkipBlock { label: l }),
        Block::Test(t) => Block::Test(TestBlock { label: l, ..t }),
    }
}

/// The statement with its labels numbered in order from `start`.
pub open spec fn relabelled(stmt: Statement, start: int) -> Statement
    decreases stmt,
{
    match stmt {
        Statement::Atom(b) => Statement::Atom(block_labelled(b, start as Label)),
        Statement::Sequence(s1, s2) => Statement::Sequence(
            Box::new(relabelled(*s1, start)),
            Box::new(relabelled(*s2, start + label_count(*s1))),
        ),
        Statement::IfThenElse(t, s1, s2) => Statement::IfThenElse(
            TestBlock { label: start as Label, ..t },
            Box::new(relabelled(*s1, start + 1)),
            Box::new(relabelled(*s2, start + 1 + label_count(*s1))),
        ),
        Statement::While(t, s1) => Statement::While(
            TestBlock { label: start as Label, ..t },
            Box::new(relabelled(*s1, start + 1)),
        ),
        Statement::Empty => Statement::Empty,
    }
}

/// The first block of `bs` that carries the label `l`.
pub open spec fn first_labelled(bs: Seq<Block>, l: Label) -> Option<Block>
    decreases bs.len(),
{
    if bs.len() == 0 {
        None
    } else if bs[0].label_of() == l {
        Some(bs[0])
    } else {
        first_labelled(bs.subrange(1, bs.len() as int), l)
    }
}

proof fn lemma_first_labelled_concat(a: Seq<Block>, b: Seq<Block>, l: Label)
    ensures
        first_labelled(a + b, l) == match first_labelled(a, l) {
            Some(x) => Some(x),
            None => first_labelled(b, l),
        },
    decreases a.len(),
{
    if a.len() == 0 {
        assert(a + b =~= b);
    } else {
        assert((a + b).subrange(1, (a + b).len() as int) =~= a.subrange(1, a.len() as int) + b);
        lemma_first_labelled_concat(a.subrange(1, a.len() as int), b, l);
    }
}

/// A sequence of statements labelled from `1`.
#[derive(Debug, PartialEq, Eq)]
pub struct Program {
    pub contents: Statement,
    pub len: usize,
}

impl Program {
    /// Creates a program, labelling all its blocks in order from `1`.
    pub fn new(contents: Statement) -> (r: Self)
        requires
            label_count(contents) < usize::MAX,
        ensures
            r.contents == relabelled(contents, 1),
            r.len == label_count(contents),
    {
        let (contents, next) = Program::relabel(contents, 1);
        Self { contents, len: next - 1 }
    }

    /// The block that carries `label`, if any.
    pub fn at(&self, label: Label) -> (r: Option<Block>)
        ensures
            r == first_labelled(blocks_of(self.contents), label),
    {
        Program::stmt_at(&self.contents, label)
    }

    pub fn init_label(&self) -> (r: Label)
        ensures
            r == 1,
    {
        1
    }

    pub fn final_labels(&self) -> (r: Vec<Label>)
        ensures
            r@ == finals_of(self.contents),
    {
        functions::final_labels(&self.contents)
    }

    pub fn flow(&self) -> (r: Vec<(Label, Label)>)
        requires
            flow_defined(self.contents),
        ensures
            r@ == flow_of(self.contents),
    {
        functions::flow(&self.contents)
    }

    pub fn flow_r(&self) -> (r: Vec<(Label, Label)>)
        requires
            flow_defined(self.contents),
        ensures
            r@ == reversed(flow_of(self.contents)),
    {
        functions::flow_r(&self.contents)
    }

    pub fn blocks(&self) -> (r: Vec<Block>)
        ensures
            r@ == blocks_of(self.contents),
    {
        functions::blocks(&self.contents)
    }

    /// Relabels a statement from `start` and returns it with the label
    /// that follows its last one.
    fn relabel(stmt: Statement, start: Label) -> (r: (Statement, Label))
        requires
            start + label_count(stmt) <= usize::MAX,
        ensures
            r.0 == relabelled(stmt, start as int),
            r.1 == start + label_count(stmt),
        decreases stmt,
    {
        match stmt {
            Statement::Atom(block) => (
                Statement::Atom(
                    match block {
                        Block::Assignment(AssignmentBlock { var, expr, .. }) => Block::assignment(
                            start,
                            var,
                            expr,
                        ),
                        Block::Skip(SkipBlock { .. }) => Block::skip(start),
                        Block::Test(TestBlock { expr, .. }) => Block::test(start, expr),
                    },
                ),
                start + 1,
            ),
            Statement::Sequence(stmt1, stmt2) => {
                let (new_stmt1, stmt2_start) = Program::relabel(*stmt1, start);
                let (new_stmt2, next) = Program::relabel(*stmt2, stmt2_start);
                (Statement::Sequence(Box::new(new_stmt1), Box::new(new_stmt2)), next)
            },
            Statement::IfThenElse(test, stmt1, stmt2) => {
                let new_test = TestBlock { label: start, expr: test.expr };
                let (new_stmt1, stmt2_start) = Program::relabel(*stmt1, start + 1);
                let (new_stmt2, next) = Program::relabel(*stmt2, stmt2_start);
                (Statement::IfThenElse(new_test, Box::new(new_stmt1), Box::new(new_stmt2)), next)
            },
            Statement::While(test, stmt1) => {
                let new_test = TestBlock { label: start, expr: test.expr };
                let (new_stmt1, next) = Program::relabel(*stmt1, start + 1);
                (Statement::While(new_test, Box::new(new_stmt1)), next)
            },
            Statement::Empty => (Statement::Empty, start),
        }
    }

    /// The first block of `stmt` that carries `label`, if any.
    fn stmt_at(stmt: &Statement, label: Label) -> (r: Option<Block>)
        ensures
            r == first_labelled(blocks_of(*stmt), label),
        decreases stmt,
    {
        proof {
            match stmt {
                Statement::Sequence(s1, s2) => {
                    lemma_first_labelled_concat(blocks_of(**s1), blocks_of(**s2), label);
                },
                Statement::IfThenElse(t, s1, s2) => {
                    let head = seq![Block::Test(*t)];
                    lemma_first_labelled_concat(blocks_of(**s1), blocks_of(**s2), label);
                    assert(blocks_of(*stmt) =~= head + (blocks_of(**s1) + blocks_of(**s2)));
                    lemma_first_labelled_concat(head, blocks_of(**s1) + blocks_of(**s2), label);
                    assert(head.subrange(1, 1) =~= Seq::<Block>::empty());
                    if t.label != label {
                        assert(first_labelled(head.subrange(1, 1), label) == None::<Block>);
                        assert(first_labelled(head, label) == None::<Block>);
                    }
                },
                Statement::While(t, s1) => {
                    let head = seq![Block::Test(*t)];
                    lemma_first_labelled_concat(head, blocks_of(**s1), label);
                    assert(head.subrange(1, 1) =~= Seq::<Block>::empty());
                    assert(blocks_of(*stmt) =~= head + blocks_of(**s1));
                    if t.label != label {
                        assert(first_labelled(head.subrange(1, 1), label) == None::<Block>);
                        assert(first_labelled(head, label) == None::<Block>);
                    }
                },
                Statement::Atom(b) => {
                    assert(seq![*b].subrange(1, 1) =~= Seq::<Block>::empty());
                    assert(first_labelled(seq![*b].subrange(1, 1), label) == None::<Block>);
                },
                Statement::Empty => {},
            }
        }
        match stmt {
            Statement::Atom(block) => {
                if block.get_label() == label {
                    return Some(block.duplicate());
                }
                None
            },
            Statement::Sequence(stmt1, stmt2) => {
                if let Some(block) = Program::stmt_at(stmt1, label) {
                    return Some(block);
                }
                if let Some(block) = Program::stmt_at(stmt2, label) {
                    return Some(block);
                }
                None
            },
            Statement::IfThenElse(test, stmt1, stmt2) => {
                if test.label == label {
                    return Some(Block::Test(test.duplicate()));
                }
                if let Some(block) = Program::stmt_at(stmt1, label) {
                    return Some(block);
                }
                if let Some(block) = Program::stmt_at(stmt2, label) {
                    return Some(block);
                }
                None
            },
            Statement::While(test, stmt1) => {
                if test.label == label {
                    return Some(Block::Test(test.duplicate()));
                }
                if let Some(block) = Program::stmt_at(stmt1, label) {
                    return Some(block);
                }
                None
            },
            Statement::Empty => None,
        }
    }
}

} // verus!

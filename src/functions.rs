use vstd::prelude::*;

use crate::block::Block;
use crate::statement::Statement;
use crate::types::Label;

verus! {

/// The labels of the blocks that may run last.
pub open spec fn finals_of(stmt: Statement) -> Seq<Label>
    decreases stmt,
{
    match stmt {
        Statement::Atom(b) => seq![b.label_of()],
        Statement::Sequence(_, s2) => finals_of(*s2),
        Statement::IfThenElse(_, s1, s2) => finals_of(*s1) + finals_of(*s2),
        Statement::While(t, _) => seq![t.label],
        Statement::Empty => Seq::empty(),
    }
}

/// The elementary blocks of the statement, tests included.
pub open spec fn blocks_of(stmt: Statement) -> Seq<Block>
    decreases stmt,
{
    match stmt {
        Statement::Atom(b) => seq![b],
        Statement::Sequence(s1, s2) => blocks_of(*s1) + blocks_of(*s2),
        Statement::IfThenElse(t, s1, s2) => seq![Block::Test(t)] + blocks_of(*s1) + blocks_of(*s2),
        Statement::While(t, s1) => seq![Block::Test(t)] + blocks_of(*s1),
        Statement::Empty => Seq::empty(),
    }
}

/// Every edge into a sub-statement has a label to go to: the flow is defined.
pub open spec fn flow_defined(stmt: Statement) -> bool
    decreases stmt,
{
    match stmt {
        Statement::Atom(_) | Statement::Empty => true,
        Statement::Sequence(s1, s2) => flow_defined(*s1) && flow_defined(*s2) && (finals_of(*s1).len()
            == 0 || s2.has_init()),
        Statement::IfThenElse(_, s1, s2) => flow_defined(*s1) && flow_defined(*s2) && s1.has_init()
            && s2.has_init(),
        Statement::While(_, s1) => flow_defined(*s1) && s1.has_init(),
    }
}

/// Each label of `ls` paired with the label `to`.
pub open spec fn edges_to(ls: Seq<Label>, to: Label) -> Seq<(Label, Label)> {
    ls.map_values(|l: Label| (l, to))
}

/// The control-flow edges between labels.
pub open spec fn flow_of(stmt: Statement) -> Seq<(Label, Label)>
    decreases stmt,
{
    match stmt {
        Statement::Atom(_) | Statement::Empty => Seq::empty(),
        Statement::Sequence(s1, s2) => flow_of(*s1) + flow_of(*s2) + edges_to(finals_of(*s1), s2.init_of()),
        Statement::IfThenElse(t, s1, s2) => flow_of(*s1) + flow_of(*s2) + seq![
            (t.label, s1.init_of()),
            (t.label, s2.init_of()),
        ],
        Statement::While(t, s1) => flow_of(*s1) + seq![(t.label, s1.init_of())] + edges_to(
            finals_of(*s1),
            t.label,
        ),
    }
}

/// The edges of `fl`, each turned around.
pub open spec fn reversed(fl: Seq<(Label, Label)>) -> Seq<(Label, Label)> {
    fl.map_values(|e: (Label, Label)| (e.1, e.0))
}

/// The label of the block that runs first.
pub fn init_label(stmt: &Statement) -> (r: Label)
    requires
        stmt.has_init(),
    ensures
        r == stmt.init_of(),
{
    stmt.get_label()
}

/// The labels of the blocks that may run last.
pub fn final_labels(stmt: &Statement) -> (r: Vec<Label>)
    ensures
        r@ == finals_of(*stmt),
{
    let mut out: Vec<Label> = Vec::new();
    push_finals(stmt, &mut out);
    assert(out@ =~= finals_of(*stmt));
    out
}

fn push_finals(stmt: &Statement, out: &mut Vec<Label>)
    ensures
        final(out)@ == old(out)@ + finals_of(*stmt),
    decreases stmt,
{
    let ghost start = out@;
    match stmt {
        Statement::Atom(block) => out.push(block.get_label()),
        Statement::Sequence(_, stmt2) => push_finals(stmt2, out),
        Statement::IfThenElse(_, stmt1, stmt2) => {
            push_finals(stmt1, out);
            push_finals(stmt2, out);
        },
        Statement::While(test, _) => out.push(test.label),
        Statement::Empty => {},
    }
    assert(out@ =~= start + finals_of(*stmt));
}

/// The elementary blocks of the statement, tests included.
pub fn blocks(stmt: &Statement) -> (r: Vec<Block>)
    ensures
        r@ == blocks_of(*stmt),
{
    let mut out: Vec<Block> = Vec::new();
    push_blocks(stmt, &mut out);
    assert(out@ =~= blocks_of(*stmt));
    out
}

fn push_blocks(stmt: &Statement, out: &mut Vec<Block>)
    ensures
        final(out)@ == old(out)@ + blocks_of(*stmt),
    decreases stmt,
{
    let ghost start = out@;
    match stmt {
        Statement::Atom(block) => out.push(block.duplicate()),
        Statement::Sequence(stmt1, stmt2) => {
            push_blocks(stmt1, out);
            push_blocks(stmt2, out);
        },
        Statement::IfThenElse(test, stmt1, stmt2) => {
            out.push(Block::Test(test.duplicate()));
            push_blocks(stmt1, out);
            push_blocks(stmt2, out);
        },
        Statement::While(test, stmt1) => {
            out.push(Block::Test(test.duplicate()));
            push_blocks(stmt1, out);
        },
        Statement::Empty => {},
    }
    assert(out@ =~= start + blocks_of(*stmt));
}

fn push_edges_to(ls: &Vec<Label>, to: Label, out: &mut Vec<(Label, Label)>)
    ensures
        final(out)@ == old(out)@ + edges_to(ls@, to),
{
    let ghost start = out@;
    let mut i: usize = 0;
    while i < ls.len()
        invariant
            i <= ls@.len(),
            out@ == start + edges_to(ls@.take(i as int), to),
        decreases ls@.len() - i,
    {
        out.push((ls[i], to));
        assert(edges_to(ls@.take(i as int + 1), to) =~= edges_to(ls@.take(i as int), to).push((ls@[i as int], to)));
        i = i + 1;
    }
    assert(ls@.take(i as int) =~= ls@);
}

/// The control-flow edges between labels.
pub fn flow(stmt: &Statement) -> (r: Vec<(Label, Label)>)
    requires
        flow_defined(*stmt),
    ensures
        r@ == flow_of(*stmt),
{
    let mut out: Vec<(Label, Label)> = Vec::new();
    push_flow(stmt, &mut out);
    assert(out@ =~= flow_of(*stmt));
    out
}

fn push_flow(stmt: &Statement, out: &mut Vec<(Label, Label)>)
    requires
        flow_defined(*stmt),
    ensures
        final(out)@ == old(out)@ + flow_of(*stmt),
    decreases stmt,
{
    let ghost start = out@;
    match stmt {
        Statement::Atom(_) | Statement::Empty => {},
        Statement::Sequence(stmt1, stmt2) => {
            push_flow(stmt1, out);
            push_flow(stmt2, out);
            let finals = final_labels(stmt1);
            if finals.len() > 0 {
                let init = init_label(stmt2);
                push_edges_to(&finals, init, out);
            } else {
                assert(edges_to(finals@, stmt2.init_of()) =~= Seq::empty());
            }
        },
        Statement::IfThenElse(test, stmt1, stmt2) => {
            push_flow(stmt1, out);
            push_flow(stmt2, out);
            out.push((test.label, init_label(stmt1)));
            out.push((test.label, init_label(stmt2)));
        },
        Statement::While(test, stmt1) => {
            push_flow(stmt1, out);
            out.push((test.label, init_label(stmt1)));
            let finals = final_labels(stmt1);
            push_edges_to(&finals, test.label, out);
        },
    }
    assert(out@ =~= start + flow_of(*stmt));
}

/// The control-flow edges, each turned around.
pub fn flow_r(stmt: &Statement) -> (r: Vec<(Label, Label)>)
    requires
        flow_defined(*stmt),
    ensures
        r@ == reversed(flow_of(*stmt)),
{
    let fl = flow(stmt);
    let mut out: Vec<(Label, Label)> = Vec::new();
    let mut i: usize = 0;
    while i < fl.len()
        invariant
            i <= fl@.len(),
            out@ == reversed(fl@.take(i as int)),
        decreases fl@.len() - i,
    {
        let (a, b) = fl[i];
        out.push((b, a));
        assert(reversed(fl@.take(i as int + 1)) =~= reversed(fl@.take(i as int)).push((b, a)));
        i = i + 1;
    }
    assert(fl@.take(i as int) =~= fl@);
    out
}

} // verus!

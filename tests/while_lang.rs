use cfa::block::{AssignmentBlock, Block, SkipBlock, TestBlock};
use cfa::boxed;
use cfa::builder::{BuilderType, StatementBuilder};
use cfa::functions::{blocks, final_labels, flow, flow_r, init_label};
use cfa::program::Program;
use cfa::statement::Statement;
use cfa::while_expr::{AExp, BExp};

fn num(n: i64) -> AExp {
    AExp::Number(n)
}

fn lt(x: &str, n: i64) -> BExp {
    BExp::RelationalOp(Box::new(AExp::Variable(x.to_string())), "<".to_string(), Box::new(num(n)))
}

fn test_block(label: usize, x: &str, n: i64) -> TestBlock {
    TestBlock { label, expr: lt(x, n) }
}

/// `[y := 1]^1; while [x < 10]^2 do ([y := y * x]^3; [x := x + 1]^4); [skip]^5`
fn factorial_loop() -> Statement {
    let body = boxed::sequence(
        boxed::assignment(
            3,
            "y".to_string(),
            AExp::ArithmeticOp(
                Box::new(AExp::Variable("y".to_string())),
                "*".to_string(),
                Box::new(AExp::Variable("x".to_string())),
            ),
        ),
        boxed::assignment(
            4,
            "x".to_string(),
            AExp::ArithmeticOp(Box::new(AExp::Variable("x".to_string())), "+".to_string(), Box::new(num(1))),
        ),
    );
    *boxed::sequence(
        boxed::assignment(1, "y".to_string(), num(1)),
        boxed::sequence(boxed::while_(test_block(2, "x", 10), body), boxed::skip(5)),
    )
}

/// `if [x < 0]^1 then [x := 0]^2 else [skip]^3`
fn clamp() -> Statement {
    *boxed::if_then_else(test_block(1, "x", 0), boxed::assignment(2, "x".to_string(), num(0)), boxed::skip(3))
}

fn sorted<T: Ord>(mut v: Vec<T>) -> Vec<T> {
    v.sort();
    v
}

#[test]
fn block_labels_and_constructors() {
    let a = Block::assignment(7, "x".to_string(), num(3));
    assert_eq!(a, Block::Assignment(AssignmentBlock { label: 7, var: "x".to_string(), expr: num(3) }));
    assert_eq!(a.get_label(), 7);
    assert_eq!(Block::skip(2), Block::Skip(SkipBlock { label: 2 }));
    assert_eq!(Block::skip(2).get_label(), 2);
    assert_eq!(Block::test(4, BExp::Boolean(true)).get_label(), 4);
}

#[test]
fn boxed_constructors_build_atoms() {
    assert_eq!(*boxed::skip(3), Statement::Atom(Block::skip(3)));
    assert_eq!(*boxed::test(2, BExp::Boolean(false)), Statement::Atom(Block::test(2, BExp::Boolean(false))));
}

#[test]
fn statement_label_is_the_first_block() {
    assert_eq!(factorial_loop().get_label(), 1);
    assert_eq!(clamp().get_label(), 1);
    assert_eq!(init_label(&factorial_loop()), 1);
}

#[test]
fn append_keeps_sequences_right_nested() {
    let s = Statement::Empty.append(Statement::Atom(Block::skip(1)));
    assert_eq!(s, Statement::Atom(Block::skip(1)));
    let s = s.append(Statement::Atom(Block::skip(2))).append(Statement::Atom(Block::skip(3)));
    assert_eq!(
        s,
        *boxed::sequence(boxed::skip(1), boxed::sequence(boxed::skip(2), boxed::skip(3)))
    );
}

#[test]
fn final_labels_of_loop_and_branch() {
    assert_eq!(final_labels(&factorial_loop()), vec![5]);
    assert_eq!(sorted(final_labels(&clamp())), vec![2, 3]);
    assert_eq!(final_labels(&Statement::Empty), Vec::<usize>::new());
    let w = Statement::While(test_block(1, "x", 3), boxed::skip(2));
    assert_eq!(final_labels(&w), vec![1]);
}

#[test]
fn blocks_include_tests() {
    let bs = blocks(&factorial_loop());
    assert_eq!(bs.len(), 5);
    assert!(bs.contains(&Block::Test(test_block(2, "x", 10))));
    assert!(bs.contains(&Block::skip(5)));
    assert_eq!(blocks(&clamp()).len(), 3);
}

#[test]
fn flow_of_loop() {
    let expected = vec![(1, 2), (2, 3), (3, 4), (4, 2), (2, 5)];
    assert_eq!(sorted(flow(&factorial_loop())), sorted(expected));
}

#[test]
fn flow_of_branch_and_reverse() {
    assert_eq!(sorted(flow(&clamp())), vec![(1, 2), (1, 3)]);
    assert_eq!(sorted(flow_r(&clamp())), vec![(2, 1), (3, 1)]);
    assert_eq!(sorted(flow_r(&factorial_loop())), vec![(2, 1), (2, 4), (3, 2), (4, 3), (5, 2)]);
}

#[test]
fn program_relabels_from_one() {
    let s = *boxed::sequence(
        boxed::assignment(40, "x".to_string(), num(1)),
        boxed::while_(test_block(17, "x", 5), boxed::skip(99)),
    );
    let p = Program::new(s);
    assert_eq!(p.len, 3);
    assert_eq!(p.init_label(), 1);
    assert_eq!(p.final_labels(), vec![2]);
    assert_eq!(sorted(p.flow()), vec![(1, 2), (2, 3), (3, 2)]);
    assert_eq!(sorted(p.flow_r()), vec![(2, 1), (2, 3), (3, 2)]);
    assert_eq!(p.blocks().len(), 3);
    assert_eq!(p.at(3), Some(Block::skip(3)));
    assert_eq!(p.at(2), Some(Block::Test(test_block(2, "x", 5))));
    assert_eq!(p.at(1), Some(Block::assignment(1, "x".to_string(), num(1))));
    assert_eq!(p.at(4), None);
}

#[test]
fn program_of_branch() {
    let p = Program::new(clamp());
    assert_eq!(p.len, 3);
    assert_eq!(p.contents, clamp());
    assert_eq!(p.at(2), Some(Block::assignment(2, "x".to_string(), num(0))));
}

#[test]
fn builder_builds_a_loop() {
    let stmt = StatementBuilder::new(1)
        .assignment("y".to_string(), num(1))
        .begin_while(lt("x", 10))
        .skip()
        .end_while()
        .test(BExp::Boolean(true))
        .end();
    let expected = *boxed::sequence(
        boxed::assignment(1, "y".to_string(), num(1)),
        boxed::sequence(
            boxed::while_(test_block(2, "x", 10), boxed::skip(3)),
            boxed::test(4, BExp::Boolean(true)),
        ),
    );
    assert_eq!(stmt, expected);
}

#[test]
fn builder_builds_a_branch() {
    let b = StatementBuilder::new(1).begin_if(lt("x", 0));
    assert!(matches!(b.btype, BuilderType::If(_)));
    let b = b.assignment("x".to_string(), num(0)).else_();
    assert!(matches!(b.btype, BuilderType::Else(_, _)));
    let stmt = b.skip().end_if().end();
    // the else-branch starts one label past the then-branch's next label
    let expected = Statement::IfThenElse(
        test_block(1, "x", 0),
        boxed::assignment(2, "x".to_string(), num(0)),
        boxed::skip(4),
    );
    assert_eq!(stmt, expected);
}

#[test]
fn builder_starts_empty() {
    let b = StatementBuilder::new(5);
    assert!(matches!(b.btype, BuilderType::Plain));
    assert_eq!(b.next_label, 5);
    assert_eq!(b.end(), Statement::Empty);
}

use cfa::analysis::{analyse, analyse_program, AbstractCache, AbstractEnv};
use cfa::constraint::{ConSet, Constraint};
use cfa::expression::Expression;
use cfa::labelling::relabel;
use cfa::term::Term;
use cfa::types::{Label, Operator, Variable};

fn e(label: Label, term: Term) -> Expression {
    Expression { label, term }
}

fn b(label: Label, term: Term) -> Box<Expression> {
    Box::new(e(label, term))
}

fn var(label: Label, x: Variable) -> Box<Expression> {
    b(label, Term::Variable(x))
}

fn cache_of(cache: &AbstractCache, l: Label) -> Vec<Term> {
    let hits: Vec<&(Label, Vec<Term>)> = cache.iter().filter(|p| p.0 == l).collect();
    assert_eq!(hits.len(), 1, "exactly one entry for label {}", l);
    hits[0].1.iter().map(|t| t.duplicate()).collect()
}

fn env_of(env: &AbstractEnv, x: Variable) -> Vec<Term> {
    let hits: Vec<&(Variable, Vec<Term>)> = env.iter().filter(|p| p.0 == x).collect();
    assert_eq!(hits.len(), 1, "exactly one entry for variable {}", x);
    hits[0].1.iter().map(|t| t.duplicate()).collect()
}

fn same_set(a: &[Term], b: &[Term]) -> bool {
    a.iter().all(|t| b.contains(t)) && b.iter().all(|t| a.contains(t))
}

/// `(fn x -> x)^2 (fn y -> y)^4` applied at 5, with x at 1 and y at 3.
fn identity_applied_to_identity() -> Expression {
    e(
        5,
        Term::Application(
            b(2, Term::Closure('x', var(1, 'x'))),
            b(4, Term::Closure('y', var(3, 'y'))),
        ),
    )
}

fn closure_a() -> Term {
    Term::Closure('x', var(1, 'x'))
}

fn closure_b() -> Term {
    Term::Closure('y', var(3, 'y'))
}

fn value_of(cache: &AbstractCache, env: &AbstractEnv, c: &ConSet) -> Vec<Term> {
    match c {
        ConSet::Cache(l) => cache_of(cache, *l),
        ConSet::Env(x) => env_of(env, *x),
        ConSet::SingleTerm(t) => vec![t.duplicate()],
    }
}

fn every_constraint_holds(cs: &[Constraint], cache: &AbstractCache, env: &AbstractEnv) -> bool {
    cs.iter().all(|c| match c {
        Constraint::Unconditional(a, b) => {
            let vb = value_of(cache, env, b);
            value_of(cache, env, a).iter().all(|t| vb.contains(t))
        }
        Constraint::Conditional((t, g), a, b) => {
            if value_of(cache, env, g).contains(t) {
                let vb = value_of(cache, env, b);
                value_of(cache, env, a).iter().all(|t| vb.contains(t))
            } else {
                true
            }
        }
    })
}

#[test]
fn identity_applied_to_identity_flows_the_argument() {
    let p = identity_applied_to_identity();
    let cs = p.constraints();
    let (cache, env) = analyse(&p, &cs);
    assert!(same_set(&cache_of(&cache, 2), &[closure_a()]));
    assert!(same_set(&cache_of(&cache, 4), &[closure_b()]));
    assert!(same_set(&env_of(&env, 'x'), &[closure_b()]));
    assert!(env_of(&env, 'y').is_empty());
    assert!(same_set(&cache_of(&cache, 1), &[closure_b()]));
    assert!(cache_of(&cache, 3).is_empty());
    assert!(same_set(&cache_of(&cache, 5), &[closure_b()]));
    assert_eq!(cache.len(), 5);
    assert_eq!(env.len(), 2);
}

#[test]
fn unapplied_closure_holds_only_itself() {
    let p = e(2, Term::Closure('x', var(1, 'x')));
    let cs = p.constraints();
    let (cache, env) = analyse(&p, &cs);
    assert!(same_set(&cache_of(&cache, 2), &[Term::Closure('x', var(1, 'x'))]));
    assert!(env_of(&env, 'x').is_empty());
    assert!(cache_of(&cache, 1).is_empty());
}

#[test]
fn conditional_unions_both_branches_whatever_the_test() {
    for test_value in [0, 1, -7] {
        let p = e(
            6,
            Term::IfThenElse(
                b(1, Term::Constant(test_value)),
                b(3, Term::Closure('x', var(2, 'x'))),
                b(5, Term::Closure('y', var(4, 'y'))),
            ),
        );
        let cs = p.constraints();
        let (cache, _env) = analyse(&p, &cs);
        let expected = [Term::Closure('x', var(2, 'x')), Term::Closure('y', var(4, 'y'))];
        assert!(same_set(&cache_of(&cache, 6), &expected));
        assert!(cache_of(&cache, 1).is_empty());
    }
}

/// `let f = fn x -> x in f 5`, labelled in post-order.
fn let_bound_identity_applied_to_constant() -> Expression {
    let tree = e(
        0,
        Term::Let(
            'f',
            b(0, Term::Closure('x', var(0, 'x'))),
            b(0, Term::Application(var(0, 'f'), b(0, Term::Constant(5)))),
        ),
    );
    relabel(tree, 1).0
}

#[test]
fn let_bound_closure_reaches_its_call_site() {
    let p = let_bound_identity_applied_to_constant();
    assert_eq!(p.label, 6);
    let cs = p.constraints();
    let (cache, env) = analyse(&p, &cs);
    let closure = Term::Closure('x', var(1, 'x'));
    assert!(same_set(&env_of(&env, 'f'), &[closure.duplicate()]));
    assert!(same_set(&cache_of(&cache, 3), &[closure]));
    // Constants add no constraint of their own, so nothing reaches the
    // parameter, and the program's result equals the parameter's value.
    assert!(cache_of(&cache, 4).is_empty());
    assert!(env_of(&env, 'x').is_empty());
    assert!(same_set(&cache_of(&cache, 6), &env_of(&env, 'x')));
}

#[test]
fn recursive_closure_binds_its_own_name_and_its_parameter() {
    // (fun f n -> f n) (fn z -> z): the argument reaches the parameter `n`.
    let p = relabel(
        e(
            0,
            Term::Application(
                b(0, Term::RecursiveClosure('f', 'n', b(0, Term::Application(var(0, 'f'), var(0, 'n'))))),
                b(0, Term::Closure('z', var(0, 'z'))),
            ),
        ),
        1,
    )
    .0;
    assert_eq!(p.label, 7);
    let (_cs, cache, env) = analyse_program(&p);
    let rec = Term::RecursiveClosure('f', 'n', b(3, Term::Application(var(1, 'f'), var(2, 'n'))));
    let id = Term::Closure('z', var(5, 'z'));
    assert!(same_set(&env_of(&env, 'f'), &[rec.duplicate()]));
    assert!(same_set(&env_of(&env, 'n'), &[id.duplicate()]));
    assert!(same_set(&cache_of(&cache, 4), &[rec]));
    assert!(same_set(&cache_of(&cache, 6), &[id]));
}

#[test]
fn solution_meets_every_constraint() {
    for p in [identity_applied_to_identity(), let_bound_identity_applied_to_constant()] {
        let (cs, cache, env) = analyse_program(&p);
        assert!(every_constraint_holds(&cs, &cache, &env));
    }
}

#[test]
fn solution_is_least() {
    // Taking any one value out of any one node breaks some constraint.
    let p = identity_applied_to_identity();
    let (cs, cache, env) = analyse_program(&p);
    for i in 0..cache.len() {
        for k in 0..cache[i].1.len() {
            let mut smaller: AbstractCache =
                cache.iter().map(|(l, ts)| (*l, ts.iter().map(|t| t.duplicate()).collect())).collect();
            smaller[i].1.remove(k);
            assert!(!every_constraint_holds(&cs, &smaller, &env));
        }
    }
    for i in 0..env.len() {
        for k in 0..env[i].1.len() {
            let mut smaller: AbstractEnv =
                env.iter().map(|(x, ts)| (*x, ts.iter().map(|t| t.duplicate()).collect())).collect();
            smaller[i].1.remove(k);
            assert!(!every_constraint_holds(&cs, &cache, &smaller));
        }
    }
}

#[test]
fn solving_in_another_order_gives_the_same_solution() {
    let p = identity_applied_to_identity();
    let cs = p.constraints();
    let reversed: Vec<Constraint> = p.constraints().into_iter().rev().collect();
    let (c1, e1) = analyse(&p, &cs);
    let (c2, e2) = analyse(&p, &reversed);
    for l in 1..=5 {
        assert!(same_set(&cache_of(&c1, l), &cache_of(&c2, l)));
    }
    for x in ['x', 'y'] {
        assert!(same_set(&env_of(&e1, x), &env_of(&e2, x)));
    }
}

#[test]
fn labels_visit_every_node_once() {
    let p = identity_applied_to_identity();
    assert_eq!(p.labels(), vec![5, 2, 1, 4, 3]);
}

#[test]
fn variables_in_binding_and_reference_position() {
    let p = let_bound_identity_applied_to_constant();
    assert_eq!(p.variables(), vec!['f', 'x', 'x', 'f']);
}

#[test]
fn subterms_list_each_node_term() {
    let p = identity_applied_to_identity();
    let ts = p.subterms();
    assert_eq!(ts.len(), 5);
    assert_eq!(ts[1], closure_a());
    assert_eq!(ts[2], Term::Variable('x'));
    assert_eq!(ts[3], closure_b());
}

#[test]
fn constraints_of_identity_application() {
    let p = identity_applied_to_identity();
    let cs = p.constraints();
    // one per closure literal, one per variable reference, and two guarded
    // constraints per closure at the single call site
    assert_eq!(cs.len(), 8);
    assert!(cs.contains(&Constraint::Unconditional(ConSet::SingleTerm(closure_a()), ConSet::Cache(2))));
    assert!(cs.contains(&Constraint::Unconditional(ConSet::Env('x'), ConSet::Cache(1))));
    assert!(cs.contains(&Constraint::Conditional(
        (closure_a(), ConSet::Cache(2)),
        ConSet::Cache(4),
        ConSet::Env('x')
    )));
    assert!(cs.contains(&Constraint::Conditional(
        (closure_b(), ConSet::Cache(2)),
        ConSet::Cache(3),
        ConSet::Cache(5)
    )));
}

#[test]
fn let_and_binary_operation_constraints() {
    let p = relabel(
        e(0, Term::Let('a', b(0, Term::Constant(1)), b(0, Term::BinaryOp(var(0, 'a'), Operator::Add, var(0, 'a'))))),
        1,
    )
    .0;
    let cs = p.constraints();
    assert!(cs.contains(&Constraint::Unconditional(ConSet::Cache(1), ConSet::Env('a'))));
    assert!(cs.contains(&Constraint::Unconditional(ConSet::Cache(4), ConSet::Cache(5))));
    assert_eq!(cs.len(), 4);
}

#[test]
fn relabel_numbers_in_post_order() {
    let tree = e(
        0,
        Term::Application(b(0, Term::Closure('x', var(0, 'x'))), b(0, Term::Closure('y', var(0, 'y')))),
    );
    let (p, next) = relabel(tree, 1);
    assert_eq!(next, 6);
    assert_eq!(p, identity_applied_to_identity());
}

#[test]
fn duplicate_and_equality_are_structural() {
    let p = identity_applied_to_identity();
    let q = p.duplicate();
    assert_eq!(p, q);
    assert_ne!(closure_a(), closure_b());
    assert_ne!(e(1, Term::Constant(3)), e(2, Term::Constant(3)));
}

use vstd::prelude::*;

use crate::constraint::{ConSet, Constraint};
use crate::expression::{call_constraints, callee_constraints, Expression};
use crate::solver::{
    collect_values, dedup_labels, dedup_variables, dependencies, distinct, in_nodes, node_at,
    operands_in_nodes, row_terms, row_values, rule_in_range, sat, shaped, solve, stands_for, to_rules,
    Rule,
};
use crate::term::Term;
use crate::types::{Label, Variable};

verus! {

/// The solved value set of each label, as (label, values) entries.
pub type AbstractCache = Vec<(Label, Vec<Term>)>;

/// The solved value set of each variable, as (variable, values) entries.
pub type AbstractEnv = Vec<(Variable, Vec<Term>)>;

/// The set an operand stands for under the assignment `s`: a literal is
/// its own singleton, a node is what `s` gives it.
pub open spec fn operand(s: spec_fn(ConSet) -> Set<Term>, c: ConSet) -> Set<Term> {
    match c {
        ConSet::SingleTerm(t) => set![t],
        _ => s(c),
    }
}

/// The constraint `c` is met by the assignment `s`.
pub open spec fn holds(s: spec_fn(ConSet) -> Set<Term>, c: Constraint) -> bool {
    match c {
        Constraint::Unconditional(a, b) => operand(s, a).subset_of(operand(s, b)),
        Constraint::Conditional((t, g), a, b) => operand(s, g).contains(t) ==> operand(
            s,
            a,
        ).subset_of(operand(s, b)),
    }
}

/// Every constraint of `cs` is met by `s`.
pub open spec fn closed(s: spec_fn(ConSet) -> Set<Term>, cs: Seq<Constraint>) -> bool {
    forall|j: int| 0 <= j < cs.len() ==> #[trigger] holds(s, cs[j])
}

/// `c` is a solver node of the program `e`: the cache of one of its labels
/// or the environment slot of one of its variables.
pub open spec fn is_node(e: Expression, c: ConSet) -> bool {
    match c {
        ConSet::Cache(l) => e.labels_of().contains(l),
        ConSet::Env(x) => e.variables_of().contains(x),
        ConSet::SingleTerm(_) => false,
    }
}

/// Every operand of `cs` is a node of `e`, except the source of an
/// unconditional constraint, which may also be a literal.
pub open spec fn well_formed(e: Expression, cs: Seq<Constraint>) -> bool {
    forall|j: int|
        0 <= j < cs.len() ==> match #[trigger] cs[j] {
            Constraint::Unconditional(a, b) => (a is SingleTerm || is_node(e, a)) && is_node(e, b),
            Constraint::Conditional((_, g), a, b) => is_node(e, g) && is_node(e, a) && is_node(e, b),
        }
}

/// `s` is the least assignment that meets `cs`, on the nodes of `e`.
pub open spec fn is_least_solution(
    e: Expression,
    cs: Seq<Constraint>,
    s: spec_fn(ConSet) -> Set<Term>,
) -> bool {
    &&& closed(s, cs)
    &&& forall|s2: spec_fn(ConSet) -> Set<Term>, c: ConSet|
        closed(s2, cs) && is_node(e, c) ==> #[trigger] s(c).subset_of(#[trigger] s2(c))
}

/// The values that the entries of `cache` give the label `l`.
pub open spec fn cache_value(cache: Seq<(Label, Vec<Term>)>, l: Label) -> Set<Term> {
    Set::new(|t: Term| exists|i: int| 0 <= i < cache.len() && cache[i].0 == l && cache[i].1@.contains(t))
}

/// The values that the entries of `env` give the variable `x`.
pub open spec fn env_value(env: Seq<(Variable, Vec<Term>)>, x: Variable) -> Set<Term> {
    Set::new(|t: Term| exists|i: int| 0 <= i < env.len() && env[i].0 == x && env[i].1@.contains(t))
}

/// The assignment that a cache and an environment describe together.
pub open spec fn solution(
    cache: Seq<(Label, Vec<Term>)>,
    env: Seq<(Variable, Vec<Term>)>,
) -> spec_fn(ConSet) -> Set<Term> {
    |c: ConSet|
        match c {
            ConSet::Cache(l) => cache_value(cache, l),
            ConSet::Env(x) => env_value(env, x),
            ConSet::SingleTerm(_) => Set::empty(),
        }
}

/// The cache has exactly one entry for each label of `e`.
pub open spec fn keyed_by_labels(e: Expression, cache: Seq<(Label, Vec<Term>)>) -> bool {
    &&& forall|i: int, j: int| 0 <= i < j < cache.len() ==> cache[i].0 != cache[j].0
    &&& forall|l: Label| e.labels_of().contains(l) <==> exists|i: int| 0 <= i < cache.len() && cache[i].0 == l
}

/// The environment has exactly one entry for each variable of `e`.
pub open spec fn keyed_by_variables(e: Expression, env: Seq<(Variable, Vec<Term>)>) -> bool {
    &&& forall|i: int, j: int| 0 <= i < j < env.len() ==> env[i].0 != env[j].0
    &&& forall|x: Variable| e.variables_of().contains(x) <==> exists|i: int| 0 <= i < env.len() && env[i].0 == x
}

/// Two least solutions of one constraint set agree on every node. The
/// solution that `analyse` returns is therefore the same on every run, in
/// whatever order its worklist is processed.
pub proof fn lemma_least_solution_unique(
    e: Expression,
    cs: Seq<Constraint>,
    s1: spec_fn(ConSet) -> Set<Term>,
    s2: spec_fn(ConSet) -> Set<Term>,
)
    requires
        is_least_solution(e, cs, s1),
        is_least_solution(e, cs, s2),
    ensures
        forall|c: ConSet| is_node(e, c) ==> #[trigger] s1(c) == s2(c),
{
    assert forall|c: ConSet| is_node(e, c) implies #[trigger] s1(c) == s2(c) by {
        assert(s1(c).subset_of(s2(c)));
        assert(s2(c).subset_of(s1(c)));
        assert(s1(c) =~= s2(c));
    }
}

/// The least solution is minimal: an assignment that meets every
/// constraint and holds no more than it at a node holds exactly as much.
pub proof fn lemma_least_solution_minimal(
    e: Expression,
    cs: Seq<Constraint>,
    s: spec_fn(ConSet) -> Set<Term>,
    s2: spec_fn(ConSet) -> Set<Term>,
    c: ConSet,
)
    requires
        is_least_solution(e, cs, s),
        closed(s2, cs),
        is_node(e, c),
        s2(c).subset_of(s(c)),
    ensures
        s2(c) == s(c),
{
    assert(s(c).subset_of(s2(c)));
    assert(s2(c) =~= s(c));
}

spec fn operand_ok(ls: Seq<Label>, xs: Seq<Variable>, c: ConSet) -> bool {
    match c {
        ConSet::Cache(l) => ls.contains(l),
        ConSet::Env(x) => xs.contains(x),
        ConSet::SingleTerm(_) => false,
    }
}

spec fn constraint_ok(ls: Seq<Label>, xs: Seq<Variable>, c: Constraint) -> bool {
    match c {
        Constraint::Unconditional(a, b) => (a is SingleTerm || operand_ok(ls, xs, a)) && operand_ok(ls, xs, b),
        Constraint::Conditional((_, g), a, b) => operand_ok(ls, xs, g) && operand_ok(ls, xs, a) && operand_ok(ls, xs, b),
    }
}

spec fn all_ok(ls: Seq<Label>, xs: Seq<Variable>, cs: Seq<Constraint>) -> bool {
    forall|j: int| 0 <= j < cs.len() ==> #[trigger] constraint_ok(ls, xs, cs[j])
}

/// Every callee in `ts` binds a variable of `xs` and has a body labelled in `ls`.
spec fn callees_ok(ls: Seq<Label>, xs: Seq<Variable>, ts: Seq<Term>) -> bool {
    forall|i: int| 0 <= i < ts.len() ==> match #[trigger] ts[i] {
        Term::Closure(x, e0) | Term::RecursiveClosure(_, x, e0) => xs.contains(x) && ls.contains(e0.label),
        _ => true,
    }
}

spec fn within<A>(a: Seq<A>, b: Seq<A>) -> bool {
    forall|v: A| a.contains(v) ==> b.contains(v)
}

proof fn lemma_all_ok_concat(ls: Seq<Label>, xs: Seq<Variable>, a: Seq<Constraint>, b: Seq<Constraint>)
    requires
        all_ok(ls, xs, a),
        all_ok(ls, xs, b),
    ensures
        all_ok(ls, xs, a + b),
{
    assert forall|j: int| 0 <= j < (a + b).len() implies #[trigger] constraint_ok(ls, xs, (a + b)[j]) by {
        if j < a.len() {
            assert((a + b)[j] == a[j]);
        } else {
            assert((a + b)[j] == b[j - a.len()]);
        }
    }
}

proof fn lemma_within_concat<A>(a: Seq<A>, b: Seq<A>, c: Seq<A>)
    requires
        within(a + b, c),
    ensures
        within(a, c),
        within(b, c),
{
    assert forall|v: A| a.contains(v) implies c.contains(v) by {
        let i = choose|i: int| 0 <= i < a.len() && a[i] == v;
        assert((a + b)[i] == v);
    }
    assert forall|v: A| b.contains(v) implies c.contains(v) by {
        let i = choose|i: int| 0 <= i < b.len() && b[i] == v;
        assert((a + b)[a.len() + i] == v);
    }
}

proof fn lemma_call_constraints_ok(ls: Seq<Label>, xs: Seq<Variable>, ts: Seq<Term>, f: Label, a: Label, l: Label)
    requires
        callees_ok(ls, xs, ts),
        ls.contains(f),
        ls.contains(a),
        ls.contains(l),
    ensures
        all_ok(ls, xs, call_constraints(ts, f, a, l)),
    decreases ts.len(),
{
    if ts.len() > 0 {
        assert(callees_ok(ls, xs, ts.drop_last())) by {
            assert forall|i: int| 0 <= i < ts.drop_last().len() implies match #[trigger] ts.drop_last()[i] {
                Term::Closure(x, e0) | Term::RecursiveClosure(_, x, e0) => xs.contains(x) && ls.contains(e0.label),
                _ => true,
            } by {
                assert(ts.drop_last()[i] == ts[i]);
            }
        }
        lemma_call_constraints_ok(ls, xs, ts.drop_last(), f, a, l);
        assert(match ts[ts.len() - 1] {
            Term::Closure(x, e0) | Term::RecursiveClosure(_, x, e0) => xs.contains(x) && ls.contains(e0.label),
            _ => true,
        });
        lemma_all_ok_concat(ls, xs, call_constraints(ts.drop_last(), f, a, l), callee_constraints(ts.last(), f, a, l));
    }
}

proof fn lemma_constraints_ok(ls: Seq<Label>, xs: Seq<Variable>, e: Expression, ts: Seq<Term>)
    requires
        callees_ok(ls, xs, ts),
        within(e.labels_of(), ls),
        within(e.variables_of(), xs),
    ensures
        all_ok(ls, xs, e.constraints_of(ts)),
    decreases e,
{
    let l = e.label;
    assert(e.labels_of()[0] == l);
    assert(ls.contains(l));
    let rest = e.labels_of().subrange(1, e.labels_of().len() as int);
    assert(e.labels_of() =~= seq![l] + rest);
    lemma_within_concat(seq![l], rest, ls);
    match e.term {
        Term::Constant(_) => {},
        Term::Variable(x) => {
            assert(e.variables_of()[0] == x);
        },
        Term::Closure(x, e0) => {
            assert(rest =~= e0.labels_of());
            lemma_within_concat(seq![x], e0.variables_of(), xs);
            lemma_constraints_ok(ls, xs, *e0, ts);
            lemma_all_ok_concat(ls, xs, seq![Constraint::Unconditional(ConSet::SingleTerm(e.term), ConSet::Cache(l))], e0.constraints_of(ts));
        },
        Term::RecursiveClosure(f, x, e0) => {
            assert(rest =~= e0.labels_of());
            assert(e.variables_of()[0] == f);
            lemma_within_concat(seq![f, x], e0.variables_of(), xs);
            lemma_constraints_ok(ls, xs, *e0, ts);
            lemma_all_ok_concat(ls, xs, seq![
                Constraint::Unconditional(ConSet::SingleTerm(e.term), ConSet::Cache(l)),
                Constraint::Unconditional(ConSet::SingleTerm(e.term), ConSet::Env(f)),
            ], e0.constraints_of(ts));
        },
        Term::Application(e1, e2) => {
            assert(rest =~= e1.labels_of() + e2.labels_of());
            lemma_within_concat(e1.labels_of(), e2.labels_of(), ls);
            lemma_within_concat(e1.variables_of(), e2.variables_of(), xs);
            lemma_constraints_ok(ls, xs, *e1, ts);
            lemma_constraints_ok(ls, xs, *e2, ts);
            assert(e1.labels_of()[0] == e1.label);
            assert(e2.labels_of()[0] == e2.label);
            lemma_call_constraints_ok(ls, xs, ts, e1.label, e2.label, l);
            lemma_all_ok_concat(ls, xs, e1.constraints_of(ts), e2.constraints_of(ts));
            lemma_all_ok_concat(ls, xs, e1.constraints_of(ts) + e2.constraints_of(ts), call_constraints(ts, e1.label, e2.label, l));
        },
        Term::IfThenElse(e0, e1, e2) => {
            assert(rest =~= e0.labels_of() + e1.labels_of() + e2.labels_of());
            lemma_within_concat(e0.labels_of() + e1.labels_of(), e2.labels_of(), ls);
            lemma_within_concat(e0.labels_of(), e1.labels_of(), ls);
            lemma_within_concat(e0.variables_of() + e1.variables_of(), e2.variables_of(), xs);
            lemma_within_concat(e0.variables_of(), e1.variables_of(), xs);
            lemma_constraints_ok(ls, xs, *e0, ts);
            lemma_constraints_ok(ls, xs, *e1, ts);
            lemma_constraints_ok(ls, xs, *e2, ts);
            assert(e1.labels_of()[0] == e1.label);
            assert(e2.labels_of()[0] == e2.label);
            let tail = seq![
                Constraint::Unconditional(ConSet::Cache(e1.label), ConSet::Cache(l)),
                Constraint::Unconditional(ConSet::Cache(e2.label), ConSet::Cache(l)),
            ];
            lemma_all_ok_concat(ls, xs, e0.constraints_of(ts), e1.constraints_of(ts));
            lemma_all_ok_concat(ls, xs, e0.constraints_of(ts) + e1.constraints_of(ts), e2.constraints_of(ts));
            lemma_all_ok_concat(ls, xs, e0.constraints_of(ts) + e1.constraints_of(ts) + e2.constraints_of(ts), tail);
        },
        Term::Let(x, e1, e2) => {
            assert(rest =~= e1.labels_of() + e2.labels_of());
            lemma_within_concat(e1.labels_of(), e2.labels_of(), ls);
            lemma_within_concat(seq![x] + e1.variables_of(), e2.variables_of(), xs);
            lemma_within_concat(seq![x], e1.variables_of(), xs);
            lemma_constraints_ok(ls, xs, *e1, ts);
            lemma_constraints_ok(ls, xs, *e2, ts);
            assert(e1.labels_of()[0] == e1.label);
            assert(e2.labels_of()[0] == e2.label);
            assert(seq![x][0] == x);
            let tail = seq![
                Constraint::Unconditional(ConSet::Cache(e1.label), ConSet::Env(x)),
                Constraint::Unconditional(ConSet::Cache(e2.label), ConSet::Cache(l)),
            ];
            lemma_all_ok_concat(ls, xs, e1.constraints_of(ts), e2.constraints_of(ts));
            lemma_all_ok_concat(ls, xs, e1.constraints_of(ts) + e2.constraints_of(ts), tail);
        },
        Term::BinaryOp(e1, _, e2) => {
            assert(rest =~= e1.labels_of() + e2.labels_of());
            lemma_within_concat(e1.labels_of(), e2.labels_of(), ls);
            lemma_within_concat(e1.variables_of(), e2.variables_of(), xs);
            lemma_constraints_ok(ls, xs, *e1, ts);
            lemma_constraints_ok(ls, xs, *e2, ts);
            lemma_all_ok_concat(ls, xs, e1.constraints_of(ts), e2.constraints_of(ts));
        },
    }
}

proof fn lemma_callees_ok_concat(ls: Seq<Label>, xs: Seq<Variable>, a: Seq<Term>, b: Seq<Term>)
    requires
        callees_ok(ls, xs, a),
        callees_ok(ls, xs, b),
    ensures
        callees_ok(ls, xs, a + b),
{
    assert forall|i: int| 0 <= i < (a + b).len() implies match #[trigger] (a + b)[i] {
        Term::Closure(x, e0) | Term::RecursiveClosure(_, x, e0) => xs.contains(x) && ls.contains(e0.label),
        _ => true,
    } by {
        if i < a.len() {
            assert((a + b)[i] == a[i]);
        } else {
            assert((a + b)[i] == b[i - a.len()]);
        }
    }
}

proof fn lemma_callees_ok(ls: Seq<Label>, xs: Seq<Variable>, e: Expression)
    requires
        within(e.labels_of(), ls),
        within(e.variables_of(), xs),
    ensures
        callees_ok(ls, xs, e.terms_of()),
    decreases e,
{
    let rest_labels = e.labels_of().subrange(1, e.labels_of().len() as int);
    assert(e.labels_of() =~= seq![e.label] + rest_labels);
    lemma_within_concat(seq![e.label], rest_labels, ls);
    let rest = e.terms_of().subrange(1, e.terms_of().len() as int);
    assert(e.terms_of() =~= seq![e.term] + rest);
    match e.term {
        Term::Constant(_) | Term::Variable(_) => {
            assert(rest =~= Seq::<Term>::empty());
        },
        Term::Closure(x, e0) => {
            assert(rest_labels =~= e0.labels_of());
            assert(rest =~= e0.terms_of());
            lemma_within_concat(seq![x], e0.variables_of(), xs);
            assert(seq![x][0] == x);
            assert(e0.labels_of()[0] == e0.label);
            lemma_callees_ok(ls, xs, *e0);
            lemma_callees_ok_concat(ls, xs, seq![e.term], rest);
        },
        Term::RecursiveClosure(f, x, e0) => {
            assert(rest_labels =~= e0.labels_of());
            assert(rest =~= e0.terms_of());
            lemma_within_concat(seq![f, x], e0.variables_of(), xs);
            assert(seq![f, x][1] == x);
            assert(e0.labels_of()[0] == e0.label);
            lemma_callees_ok(ls, xs, *e0);
            lemma_callees_ok_concat(ls, xs, seq![e.term], rest);
        },
        Term::Application(e1, e2) | Term::BinaryOp(e1, _, e2) => {
            assert(rest_labels =~= e1.labels_of() + e2.labels_of());
            assert(rest =~= e1.terms_of() + e2.terms_of());
            lemma_within_concat(e1.labels_of(), e2.labels_of(), ls);
            lemma_within_concat(e1.variables_of(), e2.variables_of(), xs);
            lemma_callees_ok(ls, xs, *e1);
            lemma_callees_ok(ls, xs, *e2);
            lemma_callees_ok_concat(ls, xs, e1.terms_of(), e2.terms_of());
            lemma_callees_ok_concat(ls, xs, seq![e.term], rest);
        },
        Term::IfThenElse(e0, e1, e2) => {
            assert(rest_labels =~= e0.labels_of() + e1.labels_of() + e2.labels_of());
            assert(rest =~= e0.terms_of() + e1.terms_of() + e2.terms_of());
            lemma_within_concat(e0.labels_of() + e1.labels_of(), e2.labels_of(), ls);
            lemma_within_concat(e0.labels_of(), e1.labels_of(), ls);
            lemma_within_concat(e0.variables_of() + e1.variables_of(), e2.variables_of(), xs);
            lemma_within_concat(e0.variables_of(), e1.variables_of(), xs);
            lemma_callees_ok(ls, xs, *e0);
            lemma_callees_ok(ls, xs, *e1);
            lemma_callees_ok(ls, xs, *e2);
            lemma_callees_ok_concat(ls, xs, e0.terms_of(), e1.terms_of());
            lemma_callees_ok_concat(ls, xs, e0.terms_of() + e1.terms_of(), e2.terms_of());
            lemma_callees_ok_concat(ls, xs, seq![e.term], rest);
        },
        Term::Let(x, e1, e2) => {
            assert(rest_labels =~= e1.labels_of() + e2.labels_of());
            assert(rest =~= e1.terms_of() + e2.terms_of());
            lemma_within_concat(e1.labels_of(), e2.labels_of(), ls);
            lemma_within_concat(seq![x] + e1.variables_of(), e2.variables_of(), xs);
            lemma_within_concat(seq![x], e1.variables_of(), xs);
            lemma_callees_ok(ls, xs, *e1);
            lemma_callees_ok(ls, xs, *e2);
            lemma_callees_ok_concat(ls, xs, e1.terms_of(), e2.terms_of());
            lemma_callees_ok_concat(ls, xs, seq![e.term], rest);
        },
    }
}

/// The constraints generated for a program mention only nodes of that
/// program, with literals only as sources: `analyse` accepts them.
pub proof fn lemma_generated_well_formed(e: Expression)
    ensures
        well_formed(e, e.constraints_of(e.terms_of())),
{
    let ls = e.labels_of();
    let xs = e.variables_of();
    lemma_callees_ok(ls, xs, e);
    lemma_constraints_ok(ls, xs, e, e.terms_of());
    let cs = e.constraints_of(e.terms_of());
    assert forall|j: int| 0 <= j < cs.len() implies match #[trigger] cs[j] {
        Constraint::Unconditional(a, b) => (a is SingleTerm || is_node(e, a)) && is_node(e, b),
        Constraint::Conditional((_, g), a, b) => is_node(e, g) && is_node(e, a) && is_node(e, b),
    } by {
        assert(constraint_ok(ls, xs, cs[j]));
    }
}

proof fn lemma_node_numbered(ls: Seq<Label>, xs: Seq<Variable>, c: ConSet)
    requires
        in_nodes(ls, xs, c),
    ensures
        exists|i: int| 0 <= i < ls.len() + xs.len() && node_at(ls, xs, i) == c,
{
    match c {
        ConSet::Cache(l) => {
            let i = choose|i: int| 0 <= i < ls.len() && ls[i] == l;
            assert(node_at(ls, xs, i) == c);
        },
        ConSet::Env(x) => {
            let i = choose|i: int| 0 <= i < xs.len() && xs[i] == x;
            assert(node_at(ls, xs, ls.len() + i) == c);
        },
        ConSet::SingleTerm(_) => {},
    }
}

/// Solves the constraints of the program `expr` (as `expr.constraints()`
/// gives them) by a worklist over their dependency graph, and returns the
/// least solution split into a per-label cache and a per-variable
/// environment.
pub fn analyse(expr: &Expression, constraints: &Vec<Constraint>) -> (r: (AbstractCache, AbstractEnv))
    requires
        well_formed(*expr, constraints@),
        expr.labels_of().len() + expr.variables_of().len() <= usize::MAX,
    ensures
        keyed_by_labels(*expr, r.0@),
        keyed_by_variables(*expr, r.1@),
        is_least_solution(*expr, constraints@, solution(r.0@, r.1@)),
{
    let labels = expr.labels();
    let variables = expr.variables();
    let ls = dedup_labels(&labels);
    let xs = dedup_variables(&variables);
    let n = ls.len() + xs.len();
    proof {
        assert forall|j: int| 0 <= j < constraints@.len() implies #[trigger] operands_in_nodes(
            constraints@[j],
            ls@,
            xs@,
        ) by {
            assert(well_formed(*expr, constraints@));
        }
    }
    let vals = collect_values(constraints);
    let rules = to_rules(constraints, &ls, &xs, &vals);
    let edges = dependencies(&rules, n);
    let data = solve(&rules, &edges, n, vals.len(), Ghost(ls@), Ghost(xs@), Ghost(vals@), Ghost(constraints@));

    // Presentation: one cache entry per label, one environment entry per variable.
    let mut cache: AbstractCache = Vec::new();
    let mut i: usize = 0;
    while i < ls.len()
        invariant
            i <= ls@.len(),
            n == ls@.len() + xs@.len(),
            shaped(data@, n as int, vals@.len() as int),
            cache@.len() == i,
            forall|i2: int| 0 <= i2 < i ==> (#[trigger] cache@[i2]).0 == ls@[i2]
                && cache@[i2].1@.to_set() == row_values(data@[i2]@, vals@),
        decreases ls@.len() - i,
    {
        let terms = row_terms(&data[i], &vals);
        cache.push((ls[i], terms));
        i = i + 1;
    }
    let mut env: AbstractEnv = Vec::new();
    let mut i: usize = 0;
    while i < xs.len()
        invariant
            i <= xs@.len(),
            n == ls@.len() + xs@.len(),
            shaped(data@, n as int, vals@.len() as int),
            env@.len() == i,
            forall|i2: int| 0 <= i2 < i ==> (#[trigger] env@[i2]).0 == xs@[i2]
                && env@[i2].1@.to_set() == row_values(data@[ls@.len() + i2]@, vals@),
        decreases xs@.len() - i,
    {
        let terms = row_terms(&data[ls.len() + i], &vals);
        env.push((xs[i], terms));
        i = i + 1;
    }
    proof {
        let sol = solution(cache@, env@);
        let ls = ls@;
        let xs = xs@;
        let vals = vals@;
        let cs = constraints@;
        assert forall|i: int| 0 <= i < n implies #[trigger] sol(node_at(ls, xs, i)) == row_values(data@[i]@, vals) by {
            if i < ls.len() {
                assert forall|t: Term| cache_value(cache@, ls[i]).contains(t) <==> row_values(data@[i]@, vals).contains(t) by {
                    if cache_value(cache@, ls[i]).contains(t) {
                        let i2 = choose|i2: int| 0 <= i2 < cache@.len() && cache@[i2].0 == ls[i] && cache@[i2].1@.contains(t);
                        assert(cache@[i2].0 == ls[i2]);
                        assert(i2 == i);
                        assert(cache@[i].1@.to_set().contains(t));
                    }
                    if row_values(data@[i]@, vals).contains(t) {
                        assert(cache@[i].1@.to_set().contains(t));
                        assert(cache@[i].0 == ls[i]);
                    }
                }
                assert(cache_value(cache@, ls[i]) =~= row_values(data@[i]@, vals));
            } else {
                let x = i - ls.len();
                assert(node_at(ls, xs, i) == ConSet::Env(xs[x]));
                assert forall|t: Term| env_value(env@, xs[x]).contains(t) <==> row_values(data@[i]@, vals).contains(t) by {
                    if env_value(env@, xs[x]).contains(t) {
                        let i2 = choose|i2: int| 0 <= i2 < env@.len() && env@[i2].0 == xs[x] && env@[i2].1@.contains(t);
                        assert(env@[i2].0 == xs[i2]);
                        assert(i2 == x);
                        assert(env@[x].1@.to_set().contains(t));
                    }
                    if row_values(data@[i]@, vals).contains(t) {
                        assert(env@[x].1@.to_set().contains(t));
                        assert(env@[x].0 == xs[x]);
                    }
                }
                assert(env_value(env@, xs[x]) =~= row_values(data@[i]@, vals));
            }
        }
        assert forall|j: int| 0 <= j < cs.len() implies #[trigger] holds(sol, cs[j]) by {
            assert(stands_for(rules@[j], cs[j], ls, xs, vals));
            assert(rule_in_range(rules@[j], n as int, vals.len() as int));
            assert(sat(rules@[j], data@));
            match rules@[j] {
                Rule::Seed(v, d) => {
                    assert(sol(node_at(ls, xs, d as int)) == row_values(data@[d as int]@, vals));
                    assert(row_values(data@[d as int]@, vals).contains(vals[v as int]));
                    assert(operand(sol, ConSet::SingleTerm(vals[v as int])) =~= set![vals[v as int]]);
                },
                Rule::Subset(s, d) => {
                    assert(sol(node_at(ls, xs, d as int)) == row_values(data@[d as int]@, vals));
                    assert(sol(node_at(ls, xs, s as int)) == row_values(data@[s as int]@, vals));
                    assert forall|t: Term| row_values(data@[s as int]@, vals).contains(t)
                        implies row_values(data@[d as int]@, vals).contains(t) by {
                        let k = choose|k: int| 0 <= k < data@[s as int]@.len() && data@[s as int]@[k] && vals[k] == t;
                        assert(data@[d as int]@[k]);
                    }
                },
                Rule::Guarded(v, g, s, d) => {
                    assert(sol(node_at(ls, xs, d as int)) == row_values(data@[d as int]@, vals));
                    assert(sol(node_at(ls, xs, s as int)) == row_values(data@[s as int]@, vals));
                    assert(sol(node_at(ls, xs, g as int)) == row_values(data@[g as int]@, vals));
                    if row_values(data@[g as int]@, vals).contains(vals[v as int]) {
                        let k = choose|k: int| 0 <= k < data@[g as int]@.len() && data@[g as int]@[k] && vals[k] == vals[v as int];
                        assert(k == v);
                        assert forall|t: Term| row_values(data@[s as int]@, vals).contains(t)
                            implies row_values(data@[d as int]@, vals).contains(t) by {
                            let k = choose|k: int| 0 <= k < data@[s as int]@.len() && data@[s as int]@[k] && vals[k] == t;
                            assert(data@[d as int]@[k]);
                        }
                    }
                },
            }
        }
        assert forall|s2: spec_fn(ConSet) -> Set<Term>, c: ConSet|
            closed(s2, cs) && is_node(*expr, c) implies #[trigger] sol(c).subset_of(#[trigger] s2(c)) by {
            assert(in_nodes(ls, xs, c));
            lemma_node_numbered(ls, xs, c);
            let i = choose|i: int| 0 <= i < ls.len() + xs.len() && node_at(ls, xs, i) == c;
            assert(sol(node_at(ls, xs, i)) == row_values(data@[i]@, vals));
            assert forall|t: Term| #[trigger] sol(c).contains(t) implies s2(c).contains(t) by {
                let k = choose|k: int| 0 <= k < data@[i]@.len() && data@[i]@[k] && vals[k] == t;
                assert(s2(node_at(ls, xs, i)).contains(vals[k]));
            }
        }
        assert forall|i: int, j: int| 0 <= i < j < cache@.len() implies cache@[i].0 != cache@[j].0 by {
            assert(cache@[i].0 == ls[i]);
            assert(cache@[j].0 == ls[j]);
        }
        assert forall|l: Label| expr.labels_of().contains(l) <==> exists|i: int| 0 <= i < cache@.len() && cache@[i].0 == l by {
            if expr.labels_of().contains(l) {
                assert(ls.contains(l));
                let i = choose|i: int| 0 <= i < ls.len() && ls[i] == l;
                assert(cache@[i].0 == l);
            }
            if exists|i: int| 0 <= i < cache@.len() && cache@[i].0 == l {
                let i = choose|i: int| 0 <= i < cache@.len() && cache@[i].0 == l;
                assert(ls[i] == l);
                assert(ls.contains(l));
            }
        }
        assert forall|i: int, j: int| 0 <= i < j < env@.len() implies env@[i].0 != env@[j].0 by {
            assert(env@[i].0 == xs[i]);
            assert(env@[j].0 == xs[j]);
        }
        assert forall|x: Variable| expr.variables_of().contains(x) <==> exists|i: int| 0 <= i < env@.len() && env@[i].0 == x by {
            if expr.variables_of().contains(x) {
                assert(xs.contains(x));
                let i = choose|i: int| 0 <= i < xs.len() && xs[i] == x;
                assert(env@[i].0 == x);
            }
            if exists|i: int| 0 <= i < env@.len() && env@[i].0 == x {
                let i = choose|i: int| 0 <= i < env@.len() && env@[i].0 == x;
                assert(xs[i] == x);
                assert(xs.contains(x));
            }
        }
    }
    (cache, env)
}

/// The whole analysis of a program: generates its constraints, solves
/// them, and returns the constraints with the per-label cache and the
/// per-variable environment of their least solution.
pub fn analyse_program(expr: &Expression) -> (r: (Vec<Constraint>, AbstractCache, AbstractEnv))
    requires
        expr.labels_of().len() + expr.variables_of().len() <= usize::MAX,
    ensures
        r.0@ == expr.constraints_of(expr.terms_of()),
        keyed_by_labels(*expr, r.1@),
        keyed_by_variables(*expr, r.2@),
        is_least_solution(*expr, r.0@, solution(r.1@, r.2@)),
{
    let constraints = expr.constraints();
    proof {
        lemma_generated_well_formed(*expr);
    }
    let (cache, env) = analyse(expr, &constraints);
    (constraints, cache, env)
}

} // verus!

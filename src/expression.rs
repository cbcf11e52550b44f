use vstd::prelude::*;

use crate::constraint::{ConSet, Constraint};
use crate::term::{term_eq, Term};
use crate::types::{Label, Variable};

verus! {

/// A labelled node: the label and the node's shape. Each node owns its
/// sub-expressions; the tree is never shared and never changes.
#[derive(Debug, Hash)]
pub struct Expression {
    pub label: Label,
    pub term: Term,
}

impl Expression {
    /// The labels of all nodes of the tree, in pre-order.
    pub open spec fn labels_of(self) -> Seq<Label>
        decreases self,
    {
        seq![self.label] + match self.term {
            Term::Constant(_) | Term::Variable(_) => Seq::empty(),
            Term::Closure(_, e0) | Term::RecursiveClosure(_, _, e0) => e0.labels_of(),
            Term::Application(e1, e2) | Term::Let(_, e1, e2) | Term::BinaryOp(e1, _, e2) => {
                e1.labels_of() + e2.labels_of()
            },
            Term::IfThenElse(e0, e1, e2) => e0.labels_of() + e1.labels_of() + e2.labels_of(),
        }
    }

    /// The terms of all nodes of the tree, in pre-order.
    pub open spec fn terms_of(self) -> Seq<Term>
        decreases self,
    {
        seq![self.term] + match self.term {
            Term::Constant(_) | Term::Variable(_) => Seq::empty(),
            Term::Closure(_, e0) | Term::RecursiveClosure(_, _, e0) => e0.terms_of(),
            Term::Application(e1, e2) | Term::Let(_, e1, e2) | Term::BinaryOp(e1, _, e2) => {
                e1.terms_of() + e2.terms_of()
            },
            Term::IfThenElse(e0, e1, e2) => e0.terms_of() + e1.terms_of() + e2.terms_of(),
        }
    }

    /// The variable names in binding or reference position, in pre-order.
    pub open spec fn variables_of(self) -> Seq<Variable>
        decreases self,
    {
        match self.term {
            Term::Constant(_) => Seq::empty(),
            Term::Variable(x) => seq![x],
            Term::Closure(x, e0) => seq![x] + e0.variables_of(),
            Term::RecursiveClosure(f, x, e0) => seq![f, x] + e0.variables_of(),
            Term::Application(e1, e2) | Term::BinaryOp(e1, _, e2) => {
                e1.variables_of() + e2.variables_of()
            },
            Term::IfThenElse(e0, e1, e2) => {
                e0.variables_of() + e1.variables_of() + e2.variables_of()
            },
            Term::Let(x, e1, e2) => seq![x] + e1.variables_of() + e2.variables_of(),
        }
    }

    /// The constraints of this tree, where `subterms` is the program-wide
    /// index of terms that application sites consider as callees.
    pub open spec fn constraints_of(self, subterms: Seq<Term>) -> Seq<Constraint>
        decreases self,
    {
        let l = self.label;
        match self.term {
            Term::Constant(_) => Seq::empty(),
            Term::Variable(x) => seq![Constraint::Unconditional(ConSet::Env(x), ConSet::Cache(l))],
            Term::Closure(_, e0) => seq![
                Constraint::Unconditional(ConSet::SingleTerm(self.term), ConSet::Cache(l)),
            ] + e0.constraints_of(subterms),
            Term::RecursiveClosure(f, _, e0) => seq![
                Constraint::Unconditional(ConSet::SingleTerm(self.term), ConSet::Cache(l)),
                Constraint::Unconditional(ConSet::SingleTerm(self.term), ConSet::Env(f)),
            ] + e0.constraints_of(subterms),
            Term::Application(e1, e2) => e1.constraints_of(subterms) + e2.constraints_of(subterms)
                + call_constraints(subterms, e1.label, e2.label, l),
            Term::IfThenElse(e0, e1, e2) => e0.constraints_of(subterms) + e1.constraints_of(
                subterms,
            ) + e2.constraints_of(subterms) + seq![
                Constraint::Unconditional(ConSet::Cache(e1.label), ConSet::Cache(l)),
                Constraint::Unconditional(ConSet::Cache(e2.label), ConSet::Cache(l)),
            ],
            Term::Let(x, e1, e2) => e1.constraints_of(subterms) + e2.constraints_of(subterms)
                + seq![
                Constraint::Unconditional(ConSet::Cache(e1.label), ConSet::Env(x)),
                Constraint::Unconditional(ConSet::Cache(e2.label), ConSet::Cache(l)),
            ],
            Term::BinaryOp(e1, _, e2) => e1.constraints_of(subterms) + e2.constraints_of(subterms),
        }
    }

    /// The labels of all nodes of the tree, each node visited once.
    pub fn labels(&self) -> (r: Vec<Label>)
        ensures
            r@ == self.labels_of(),
    {
        let mut out: Vec<Label> = Vec::new();
        self.collect_labels(&mut out);
        assert(out@ =~= self.labels_of());
        out
    }

    fn collect_labels(&self, out: &mut Vec<Label>)
        ensures
            final(out)@ == old(out)@ + self.labels_of(),
        decreases self,
    {
        let ghost start = out@;
        out.push(self.label);
        match &self.term {
            Term::Constant(_) | Term::Variable(_) => {},
            Term::Closure(_, e0) | Term::RecursiveClosure(_, _, e0) => e0.collect_labels(out),
            Term::Application(e1, e2) | Term::Let(_, e1, e2) | Term::BinaryOp(e1, _, e2) => {
                e1.collect_labels(out);
                e2.collect_labels(out);
            },
            Term::IfThenElse(e0, e1, e2) => {
                e0.collect_labels(out);
                e1.collect_labels(out);
                e2.collect_labels(out);
            },
        }
        assert(out@ =~= start + self.labels_of());
    }

    /// The variable names in binding or reference position.
    pub fn variables(&self) -> (r: Vec<Variable>)
        ensures
            r@ == self.variables_of(),
    {
        let mut out: Vec<Variable> = Vec::new();
        self.collect_variables(&mut out);
        assert(out@ =~= self.variables_of());
        out
    }

    fn collect_variables(&self, out: &mut Vec<Variable>)
        ensures
            final(out)@ == old(out)@ + self.variables_of(),
        decreases self,
    {
        let ghost start = out@;
        match &self.term {
            Term::Constant(_) => {},
            Term::Variable(x) => out.push(*x),
            Term::Closure(x, e0) => {
                out.push(*x);
                e0.collect_variables(out);
            },
            Term::RecursiveClosure(f, x, e0) => {
                out.push(*f);
                out.push(*x);
                e0.collect_variables(out);
            },
            Term::Application(e1, e2) | Term::BinaryOp(e1, _, e2) => {
                e1.collect_variables(out);
                e2.collect_variables(out);
            },
            Term::IfThenElse(e0, e1, e2) => {
                e0.collect_variables(out);
                e1.collect_variables(out);
                e2.collect_variables(out);
            },
            Term::Let(x, e1, e2) => {
                out.push(*x);
                e1.collect_variables(out);
                e2.collect_variables(out);
            },
        }
        assert(out@ =~= start + self.variables_of());
    }

    /// The term of every node of the tree: the program-wide subterm index.
    pub fn subterms(&self) -> (r: Vec<Term>)
        ensures
            r@ == self.terms_of(),
    {
        let mut out: Vec<Term> = Vec::new();
        self.collect_terms(&mut out);
        assert(out@ =~= self.terms_of());
        out
    }

    fn collect_terms(&self, out: &mut Vec<Term>)
        ensures
            final(out)@ == old(out)@ + self.terms_of(),
        decreases self,
    {
        let ghost start = out@;
        out.push(self.term.duplicate());
        match &self.term {
            Term::Constant(_) | Term::Variable(_) => {},
            Term::Closure(_, e0) | Term::RecursiveClosure(_, _, e0) => e0.collect_terms(out),
            Term::Application(e1, e2) | Term::Let(_, e1, e2) | Term::BinaryOp(e1, _, e2) => {
                e1.collect_terms(out);
                e2.collect_terms(out);
            },
            Term::IfThenElse(e0, e1, e2) => {
                e0.collect_terms(out);
                e1.collect_terms(out);
                e2.collect_terms(out);
            },
        }
        assert(out@ =~= start + self.terms_of());
    }

    /// The constraint set of the whole program rooted here.
    pub fn constraints(&self) -> (r: Vec<Constraint>)
        ensures
            r@ == self.constraints_of(self.terms_of()),
    {
        let subterms = self.subterms();
        let mut out: Vec<Constraint> = Vec::new();
        self.constr(&subterms, &mut out);
        assert(out@ =~= self.constraints_of(self.terms_of()));
        out
    }

    fn constr(&self, subterms: &Vec<Term>, out: &mut Vec<Constraint>)
        ensures
            final(out)@ == old(out)@ + self.constraints_of(subterms@),
        decreases self,
    {
        let ghost start = out@;
        let l = self.label;
        match &self.term {
            Term::Constant(_) => {},
            Term::Variable(x) => {
                out.push(Constraint::Unconditional(ConSet::Env(*x), ConSet::Cache(l)));
            },
            Term::Closure(_, e0) => {
                out.push(
                    Constraint::Unconditional(ConSet::SingleTerm(self.term.duplicate()), ConSet::Cache(l)),
                );
                e0.constr(subterms, out);
            },
            Term::RecursiveClosure(f, _, e0) => {
                out.push(
                    Constraint::Unconditional(ConSet::SingleTerm(self.term.duplicate()), ConSet::Cache(l)),
                );
                out.push(
                    Constraint::Unconditional(ConSet::SingleTerm(self.term.duplicate()), ConSet::Env(*f)),
                );
                e0.constr(subterms, out);
            },
            Term::Application(e1, e2) => {
                e1.constr(subterms, out);
                e2.constr(subterms, out);
                let ghost mid = out@;
                let mut i: usize = 0;
                while i < subterms.len()
                    invariant
                        i <= subterms@.len(),
                        out@ == mid + call_constraints(subterms@.take(i as int), e1.label, e2.label, l),
                    decreases subterms@.len() - i,
                {
                    assert(subterms@.take(i as int + 1).drop_last() =~= subterms@.take(i as int));
                    push_callee_constraints(&subterms[i], e1.label, e2.label, l, out);
                    i = i + 1;
                }
                assert(subterms@.take(i as int) =~= subterms@);
            },
            Term::IfThenElse(e0, e1, e2) => {
                e0.constr(subterms, out);
                e1.constr(subterms, out);
                e2.constr(subterms, out);
                out.push(Constraint::Unconditional(ConSet::Cache(e1.label), ConSet::Cache(l)));
                out.push(Constraint::Unconditional(ConSet::Cache(e2.label), ConSet::Cache(l)));
            },
            Term::Let(x, e1, e2) => {
                e1.constr(subterms, out);
                e2.constr(subterms, out);
                out.push(Constraint::Unconditional(ConSet::Cache(e1.label), ConSet::Env(*x)));
                out.push(Constraint::Unconditional(ConSet::Cache(e2.label), ConSet::Cache(l)));
            },
            Term::BinaryOp(e1, _, e2) => {
                e1.constr(subterms, out);
                e2.constr(subterms, out);
            },
        }
        assert(out@ =~= start + self.constraints_of(subterms@));
    }

    /// A structural copy of the expression.
    pub fn duplicate(&self) -> (r: Expression)
        ensures
            r == *self,
        decreases self,
    {
        Expression { label: self.label, term: self.term.duplicate() }
    }
}

/// The two guarded constraints that an application site with function
/// label `f`, argument label `a` and own label `l` gets for a callee `t`:
/// none where `t` is not a closure.
pub open spec fn callee_constraints(t: Term, f: Label, a: Label, l: Label) -> Seq<Constraint> {
    match t {
        Term::Closure(x, e0) | Term::RecursiveClosure(_, x, e0) => seq![
            Constraint::Conditional((t, ConSet::Cache(f)), ConSet::Cache(a), ConSet::Env(x)),
            Constraint::Conditional((t, ConSet::Cache(f)), ConSet::Cache(e0.label), ConSet::Cache(l)),
        ],
        _ => Seq::empty(),
    }
}

/// The guarded constraints of an application site, for every callee in `ts`.
pub open spec fn call_constraints(ts: Seq<Term>, f: Label, a: Label, l: Label) -> Seq<Constraint>
    decreases ts.len(),
{
    if ts.len() == 0 {
        Seq::empty()
    } else {
        call_constraints(ts.drop_last(), f, a, l) + callee_constraints(ts.last(), f, a, l)
    }
}

fn push_callee_constraints(t: &Term, f: Label, a: Label, l: Label, out: &mut Vec<Constraint>)
    ensures
        final(out)@ == old(out)@ + callee_constraints(*t, f, a, l),
{
    let ghost start = out@;
    match t {
        Term::Closure(x, e0) | Term::RecursiveClosure(_, x, e0) => {
            out.push(
                Constraint::Conditional((t.duplicate(), ConSet::Cache(f)), ConSet::Cache(a), ConSet::Env(*x)),
            );
            out.push(
                Constraint::Conditional(
                    (t.duplicate(), ConSet::Cache(f)),
                    ConSet::Cache(e0.label),
                    ConSet::Cache(l),
                ),
            );
        },
        _ => {},
    }
    assert(out@ =~= start + callee_constraints(*t, f, a, l));
}

/// Structural equality of two expressions.
pub fn expression_eq(a: &Expression, b: &Expression) -> (r: bool)
    ensures
        r == (*a == *b),
    decreases a,
{
    a.label == b.label && term_eq(&a.term, &b.term)
}

impl PartialEq for Expression {
    fn eq(&self, other: &Expression) -> (r: bool) {
        expression_eq(self, other)
    }
}

impl vstd::std_specs::cmp::PartialEqSpecImpl for Expression {
    open spec fn obeys_eq_spec() -> bool {
        true
    }

    open spec fn eq_spec(&self, other: &Expression) -> bool {
        *self == *other
    }
}

impl Eq for Expression {
}

} // verus!

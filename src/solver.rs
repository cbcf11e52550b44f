use vstd::prelude::*;

use crate::analysis::{closed, holds, operand};
use crate::constraint::{ConSet, Constraint};
use crate::term::{term_eq, Term};
use crate::types::{Label, Variable};

verus! {

// Nodes are numbered: the i-th distinct label is node i, the j-th distinct
// variable is node (number of labels) + j. Abstract values are numbered by
// their position in a list of distinct terms. A node's value is a row of
// bits, one per abstract value.

/// A constraint over node and value numbers.
pub(crate) enum Rule {
    /// value `v` is in node `d`
    Seed(usize, usize),
    /// node `s` is a subset of node `d`
    Subset(usize, usize),
    /// if value `v` is in node `g`, node `s` is a subset of node `d`
    Guarded(usize, usize, usize, usize),
}

pub(crate) open spec fn node_at(ls: Seq<Label>, xs: Seq<Variable>, i: int) -> ConSet {
    if i < ls.len() {
        ConSet::Cache(ls[i])
    } else {
        ConSet::Env(xs[i - ls.len()])
    }
}

pub(crate) open spec fn distinct<A>(s: Seq<A>) -> bool {
    forall|i: int, j: int| 0 <= i < j < s.len() ==> s[i] != s[j]
}

pub(crate) open spec fn rule_in_range(r: Rule, n: int, m: int) -> bool {
    match r {
        Rule::Seed(v, d) => v < m && d < n,
        Rule::Subset(s, d) => s < n && d < n,
        Rule::Guarded(v, g, s, d) => v < m && g < n && s < n && d < n,
    }
}

pub(crate) open spec fn stands_for(r: Rule, c: Constraint, ls: Seq<Label>, xs: Seq<Variable>, vals: Seq<Term>) -> bool {
    match r {
        Rule::Seed(v, d) => c == Constraint::Unconditional(
            ConSet::SingleTerm(vals[v as int]),
            node_at(ls, xs, d as int),
        ),
        Rule::Subset(s, d) => c == Constraint::Unconditional(
            node_at(ls, xs, s as int),
            node_at(ls, xs, d as int),
        ),
        Rule::Guarded(v, g, s, d) => c == Constraint::Conditional(
            (vals[v as int], node_at(ls, xs, g as int)),
            node_at(ls, xs, s as int),
            node_at(ls, xs, d as int),
        ),
    }
}

/// The nodes whose growth can break the rule.
pub(crate) open spec fn triggered_by(r: Rule, q: int) -> bool {
    match r {
        Rule::Seed(_, _) => false,
        Rule::Subset(s, _) => s == q,
        Rule::Guarded(_, g, s, _) => g == q || s == q,
    }
}

pub(crate) fn has_label(r: &Vec<Label>, l: Label) -> (b: bool)
    ensures
        b == r@.contains(l),
{
    let mut j: usize = 0;
    while j < r.len()
        invariant
            j <= r@.len(),
            !r@.take(j as int).contains(l),
        decreases r@.len() - j,
    {
        if r[j] == l {
            assert(r@[j as int] == l);
            return true;
        }
        assert(r@.take(j as int + 1) =~= r@.take(j as int).push(r@[j as int]));
        j = j + 1;
    }
    assert(r@.take(j as int) =~= r@);
    false
}

pub(crate) fn has_variable(r: &Vec<Variable>, x: Variable) -> (b: bool)
    ensures
        b == r@.contains(x),
{
    let mut j: usize = 0;
    while j < r.len()
        invariant
            j <= r@.len(),
            !r@.take(j as int).contains(x),
        decreases r@.len() - j,
    {
        if r[j] == x {
            assert(r@[j as int] == x);
            return true;
        }
        assert(r@.take(j as int + 1) =~= r@.take(j as int).push(r@[j as int]));
        j = j + 1;
    }
    assert(r@.take(j as int) =~= r@);
    false
}

pub(crate) fn dedup_labels(v: &Vec<Label>) -> (r: Vec<Label>)
    ensures
        distinct(r@),
        r@.len() <= v@.len(),
        forall|l: Label| r@.contains(l) <==> v@.contains(l),
{
    let mut r: Vec<Label> = Vec::new();
    let mut i: usize = 0;
    while i < v.len()
        invariant
            i <= v@.len(),
            r@.len() <= i,
            distinct(r@),
            forall|l: Label|
                r@.contains(l) <==> exists|k: int| 0 <= k < i && #[trigger] v@[k] == l,
        decreases v@.len() - i,
    {
        let ghost before = r@;
        let present = has_label(&r, v[i]);
        if !present {
            r.push(v[i]);
            assert(r@ == before.push(v@[i as int]));
        }
        assert forall|l: Label|
            r@.contains(l) <==> exists|k: int| 0 <= k < i + 1 && #[trigger] v@[k] == l by {
            if r@.contains(l) {
                let k = choose|k: int| 0 <= k < r@.len() && r@[k] == l;
                if k < before.len() {
                    assert(before[k] == l);
                    assert(before.contains(l));
                } else {
                    assert(v@[i as int] == l);
                }
            }
            if exists|k: int| 0 <= k < i + 1 && #[trigger] v@[k] == l {
                let k = choose|k: int| 0 <= k < i + 1 && #[trigger] v@[k] == l;
                if k < i {
                    assert(before.contains(l));
                    let k2 = choose|k2: int| 0 <= k2 < before.len() && before[k2] == l;
                    assert(r@[k2] == l);
                } else if present {
                    let k2 = choose|k2: int| 0 <= k2 < before.len() && before[k2] == l;
                    assert(r@[k2] == l);
                } else {
                    assert(r@[r@.len() - 1] == l);
                }
            }
        }
        i = i + 1;
    }
    r
}

pub(crate) fn dedup_variables(v: &Vec<Variable>) -> (r: Vec<Variable>)
    ensures
        distinct(r@),
        r@.len() <= v@.len(),
        forall|x: Variable| r@.contains(x) <==> v@.contains(x),
{
    let mut r: Vec<Variable> = Vec::new();
    let mut i: usize = 0;
    while i < v.len()
        invariant
            i <= v@.len(),
            r@.len() <= i,
            distinct(r@),
            forall|x: Variable|
                r@.contains(x) <==> exists|k: int| 0 <= k < i && #[trigger] v@[k] == x,
        decreases v@.len() - i,
    {
        let ghost before = r@;
        let present = has_variable(&r, v[i]);
        if !present {
            r.push(v[i]);
            assert(r@ == before.push(v@[i as int]));
        }
        assert forall|x: Variable|
            r@.contains(x) <==> exists|k: int| 0 <= k < i + 1 && #[trigger] v@[k] == x by {
            if r@.contains(x) {
                let k = choose|k: int| 0 <= k < r@.len() && r@[k] == x;
                if k < before.len() {
                    assert(before[k] == x);
                    assert(before.contains(x));
                } else {
                    assert(v@[i as int] == x);
                }
            }
            if exists|k: int| 0 <= k < i + 1 && #[trigger] v@[k] == x {
                let k = choose|k: int| 0 <= k < i + 1 && #[trigger] v@[k] == x;
                if k < i {
                    assert(before.contains(x));
                    let k2 = choose|k2: int| 0 <= k2 < before.len() && before[k2] == x;
                    assert(r@[k2] == x);
                } else if present {
                    let k2 = choose|k2: int| 0 <= k2 < before.len() && before[k2] == x;
                    assert(r@[k2] == x);
                } else {
                    assert(r@[r@.len() - 1] == x);
                }
            }
        }
        i = i + 1;
    }
    r
}

pub(crate) open spec fn in_nodes(ls: Seq<Label>, xs: Seq<Variable>, c: ConSet) -> bool {
    match c {
        ConSet::Cache(l) => ls.contains(l),
        ConSet::Env(x) => xs.contains(x),
        ConSet::SingleTerm(_) => false,
    }
}

/// The abstract value that a constraint names, if any.
pub(crate) open spec fn value_named(c: Constraint) -> Option<Term> {
    match c {
        Constraint::Unconditional(ConSet::SingleTerm(t), _) => Some(t),
        Constraint::Conditional((t, _), _, _) => Some(t),
        _ => None,
    }
}

pub(crate) open spec fn operands_in_nodes(c: Constraint, ls: Seq<Label>, xs: Seq<Variable>) -> bool {
    match c {
        Constraint::Unconditional(a, b) => (a is SingleTerm || in_nodes(ls, xs, a)) && in_nodes(ls, xs, b),
        Constraint::Conditional((_, g), a, b) => in_nodes(ls, xs, g) && in_nodes(ls, xs, a) && in_nodes(ls, xs, b),
    }
}

pub(crate) fn node_index(ls: &Vec<Label>, xs: &Vec<Variable>, c: &ConSet) -> (i: usize)
    requires
        in_nodes(ls@, xs@, *c),
        ls@.len() + xs@.len() <= usize::MAX,
    ensures
        i < ls@.len() + xs@.len(),
        node_at(ls@, xs@, i as int) == *c,
{
    match c {
        ConSet::Cache(l) => {
            let mut i: usize = 0;
            while i < ls.len()
                invariant
                    i <= ls@.len(),
                    ls@.contains(*l),
                    *c == ConSet::Cache(*l),
                    forall|k: int| 0 <= k < i ==> ls@[k] != *l,
                decreases ls@.len() - i,
            {
                if ls[i] == *l {
                    assert(node_at(ls@, xs@, i as int) == ConSet::Cache(ls@[i as int]));
                    return i;
                }
                i = i + 1;
            }
            i
        },
        ConSet::Env(x) => {
            let mut i: usize = 0;
            while i < xs.len()
                invariant
                    i <= xs@.len(),
                    xs@.contains(*x),
                    *c == ConSet::Env(*x),
                    forall|k: int| 0 <= k < i ==> xs@[k] != *x,
                    ls@.len() + xs@.len() <= usize::MAX,
                decreases xs@.len() - i,
            {
                if xs[i] == *x {
                    assert(node_at(ls@, xs@, ls@.len() + i) == ConSet::Env(xs@[i as int]));
                    return ls.len() + i;
                }
                i = i + 1;
            }
            i
        },
        ConSet::SingleTerm(_) => 0,
    }
}

pub(crate) fn find_value(vals: &Vec<Term>, t: &Term) -> (r: Option<usize>)
    ensures
        match r {
            Some(k) => k < vals@.len() && vals@[k as int] == *t,
            None => !vals@.contains(*t),
        },
{
    let mut k: usize = 0;
    while k < vals.len()
        invariant
            k <= vals@.len(),
            forall|i: int| 0 <= i < k ==> vals@[i] != *t,
        decreases vals@.len() - k,
    {
        if term_eq(&vals[k], t) {
            return Some(k);
        }
        k = k + 1;
    }
    None
}

/// The distinct abstract values that the constraints name.
pub(crate) fn collect_values(cs: &Vec<Constraint>) -> (vals: Vec<Term>)
    ensures
        distinct(vals@),
        forall|j: int| 0 <= j < cs@.len() && (#[trigger] value_named(cs@[j])) is Some
            ==> vals@.contains(value_named(cs@[j])->0),
{
    let mut vals: Vec<Term> = Vec::new();
    let mut j: usize = 0;
    while j < cs.len()
        invariant
            j <= cs@.len(),
            distinct(vals@),
            forall|i: int| 0 <= i < j && (#[trigger] value_named(cs@[i])) is Some
                ==> vals@.contains(value_named(cs@[i])->0),
        decreases cs@.len() - j,
    {
        let ghost before = vals@;
        let named: Option<&Term> = match &cs[j] {
            Constraint::Unconditional(ConSet::SingleTerm(t), _) => Some(t),
            Constraint::Conditional((t, _), _, _) => Some(t),
            _ => None,
        };
        if let Some(t) = named {
            match find_value(&vals, t) {
                Some(_) => {},
                None => {
                    vals.push(t.duplicate());
                    assert(vals@[vals@.len() - 1] == *t);
                },
            }
        }
        assert forall|i: int| 0 <= i < j + 1 && (#[trigger] value_named(cs@[i])) is Some
            implies vals@.contains(value_named(cs@[i])->0) by {
            if i < j {
                let k = choose|k: int| 0 <= k < before.len() && before[k] == value_named(cs@[i])->0;
                assert(vals@[k] == before[k]);
            } else if vals@.len() > before.len() {
                assert(vals@[vals@.len() - 1] == value_named(cs@[i])->0);
            }
        }
        j = j + 1;
    }
    vals
}

pub(crate) fn to_rules(cs: &Vec<Constraint>, ls: &Vec<Label>, xs: &Vec<Variable>, vals: &Vec<Term>) -> (rules: Vec<Rule>)
    requires
        ls@.len() + xs@.len() <= usize::MAX,
        forall|j: int| 0 <= j < cs@.len() ==> #[trigger] operands_in_nodes(cs@[j], ls@, xs@),
        forall|j: int| 0 <= j < cs@.len() && (#[trigger] value_named(cs@[j])) is Some
            ==> vals@.contains(value_named(cs@[j])->0),
    ensures
        rules@.len() == cs@.len(),
        forall|j: int| 0 <= j < cs@.len() ==> stands_for(#[trigger] rules@[j], cs@[j], ls@, xs@, vals@),
        forall|j: int| 0 <= j < cs@.len() ==> rule_in_range(#[trigger] rules@[j], (ls@.len() + xs@.len()) as int, vals@.len() as int),
{
    let mut rules: Vec<Rule> = Vec::new();
    let mut j: usize = 0;
    while j < cs.len()
        invariant
            j <= cs@.len(),
            rules@.len() == j,
            ls@.len() + xs@.len() <= usize::MAX,
            forall|j: int| 0 <= j < cs@.len() ==> #[trigger] operands_in_nodes(cs@[j], ls@, xs@),
            forall|j: int| 0 <= j < cs@.len() && (#[trigger] value_named(cs@[j])) is Some
                ==> vals@.contains(value_named(cs@[j])->0),
            forall|i: int| 0 <= i < j ==> stands_for(#[trigger] rules@[i], cs@[i], ls@, xs@, vals@),
            forall|i: int| 0 <= i < j ==> rule_in_range(#[trigger] rules@[i], (ls@.len() + xs@.len()) as int, vals@.len() as int),
        decreases cs@.len() - j,
    {
        assert(operands_in_nodes(cs@[j as int], ls@, xs@));
        let r = match &cs[j] {
            Constraint::Unconditional(ConSet::SingleTerm(t), b) => {
                assert(value_named(cs@[j as int]) is Some);
                let v = find_value(vals, t).unwrap();
                Rule::Seed(v, node_index(ls, xs, b))
            },
            Constraint::Unconditional(a, b) => Rule::Subset(node_index(ls, xs, a), node_index(ls, xs, b)),
            Constraint::Conditional((t, g), a, b) => {
                assert(value_named(cs@[j as int]) is Some);
                let v = find_value(vals, t).unwrap();
                Rule::Guarded(v, node_index(ls, xs, g), node_index(ls, xs, a), node_index(ls, xs, b))
            },
        };
        rules.push(r);
        j = j + 1;
    }
    rules
}

pub(crate) fn is_triggered_by(r: &Rule, q: usize) -> (b: bool)
    ensures
        b == triggered_by(*r, q as int),
{
    match r {
        Rule::Seed(_, _) => false,
        Rule::Subset(s, _) => *s == q,
        Rule::Guarded(_, g, s, _) => *g == q || *s == q,
    }
}

/// For every node, the rules that its growth can break.
pub(crate) fn dependencies(rules: &Vec<Rule>, n: usize) -> (edges: Vec<Vec<usize>>)
    ensures
        edges@.len() == n,
        forall|q: int, j: int| 0 <= q < n && 0 <= j < rules@.len() && triggered_by(#[trigger] rules@[j], q)
            ==> (#[trigger] edges@[q])@.contains(j as usize),
        forall|q: int, i: int| 0 <= q < n && 0 <= i < edges@[q]@.len() ==> (#[trigger] edges@[q]@[i]) < rules@.len(),
{
    let mut edges: Vec<Vec<usize>> = Vec::new();
    let mut q: usize = 0;
    while q < n
        invariant
            q <= n,
            edges@.len() == q,
            forall|q2: int, j: int| 0 <= q2 < q && 0 <= j < rules@.len() && triggered_by(#[trigger] rules@[j], q2)
                ==> (#[trigger] edges@[q2])@.contains(j as usize),
            forall|q2: int, i: int| 0 <= q2 < q && 0 <= i < edges@[q2]@.len() ==> (#[trigger] edges@[q2]@[i]) < rules@.len(),
        decreases n - q,
    {
        let mut row: Vec<usize> = Vec::new();
        let mut j: usize = 0;
        while j < rules.len()
            invariant
                j <= rules@.len(),
                forall|j2: int| 0 <= j2 < j && triggered_by(#[trigger] rules@[j2], q as int) ==> row@.contains(j2 as usize),
                forall|i: int| 0 <= i < row@.len() ==> #[trigger] row@[i] < rules@.len(),
            decreases rules@.len() - j,
        {
            let ghost before = row@;
            if is_triggered_by(&rules[j], q) {
                row.push(j);
            }
            assert forall|j2: int| 0 <= j2 < j + 1 && triggered_by(#[trigger] rules@[j2], q as int)
                implies row@.contains(j2 as usize) by {
                if j2 < j {
                    let i = choose|i: int| 0 <= i < before.len() && before[i] == j2 as usize;
                    assert(row@[i] == j2 as usize);
                } else {
                    assert(row@[row@.len() - 1] == j);
                }
            }
            j = j + 1;
        }
        edges.push(row);
        assert(edges@[q as int] == row);
        q = q + 1;
    }
    edges
}

// ----- bit rows -----

pub(crate) open spec fn row_le(a: Seq<bool>, b: Seq<bool>) -> bool {
    forall|k: int| 0 <= k < a.len() && #[trigger] a[k] ==> b[k]
}

pub(crate) open spec fn shaped(data: Seq<Vec<bool>>, n: int, m: int) -> bool {
    &&& data.len() == n
    &&& forall|i: int| 0 <= i < n ==> (#[trigger] data[i])@.len() == m
}

/// Every node keeps all that it held: `b` is `a` after zero or more steps.
pub(crate) open spec fn grows(a: Seq<Vec<bool>>, b: Seq<Vec<bool>>) -> bool {
    &&& a.len() == b.len()
    &&& forall|i: int| 0 <= i < a.len() ==> (#[trigger] a[i])@.len() == b[i]@.len() && row_le(a[i]@, b[i]@)
}

pub(crate) open spec fn count_true(r: Seq<bool>) -> nat
    decreases r.len(),
{
    if r.len() == 0 {
        0
    } else {
        count_true(r.drop_last()) + if r.last() {
            1nat
        } else {
            0nat
        }
    }
}

pub(crate) open spec fn total(d: Seq<Vec<bool>>) -> nat
    decreases d.len(),
{
    if d.len() == 0 {
        0
    } else {
        total(d.drop_last()) + count_true(d.last()@)
    }
}

pub(crate) open spec fn capacity(d: Seq<Vec<bool>>) -> nat
    decreases d.len(),
{
    if d.len() == 0 {
        0
    } else {
        capacity(d.drop_last()) + d.last()@.len()
    }
}

pub(crate) proof fn lemma_count_grows(a: Seq<bool>, b: Seq<bool>)
    requires
        a.len() == b.len(),
        row_le(a, b),
    ensures
        count_true(a) <= count_true(b),
        count_true(b) <= b.len(),
        (exists|k: int| 0 <= k < a.len() && b[k] && !a[k]) ==> count_true(a) < count_true(b),
    decreases a.len(),
{
    if a.len() > 0 {
        let a1 = a.drop_last();
        let b1 = b.drop_last();
        assert forall|k: int| 0 <= k < a1.len() && #[trigger] a1[k] implies b1[k] by {
            assert(a[k]);
        }
        lemma_count_grows(a1, b1);
        if exists|k: int| 0 <= k < a.len() && b[k] && !a[k] {
            let k = choose|k: int| 0 <= k < a.len() && b[k] && !a[k];
            if k < a.len() - 1 {
                assert(b1[k] && !a1[k]);
            }
        }
        if a.last() {
            assert(a[a.len() - 1]);
        }
    }
}

pub(crate) proof fn lemma_total_update(d: Seq<Vec<bool>>, i: int, r: Vec<bool>)
    requires
        0 <= i < d.len(),
    ensures
        total(d.update(i, r)) == total(d) - count_true(d[i]@) + count_true(r@),
        capacity(d.update(i, r)) == capacity(d) - d[i]@.len() + r@.len(),
    decreases d.len(),
{
    if i == d.len() - 1 {
        assert(d.update(i, r).drop_last() =~= d.drop_last());
    } else {
        assert(d.update(i, r).drop_last() =~= d.drop_last().update(i, r));
        lemma_total_update(d.drop_last(), i, r);
    }
}

pub(crate) proof fn lemma_total_bounded(d: Seq<Vec<bool>>)
    ensures
        total(d) <= capacity(d),
    decreases d.len(),
{
    if d.len() > 0 {
        lemma_total_bounded(d.drop_last());
        lemma_count_grows(d.last()@, d.last()@);
    }
}

/// Merges node `s` into node `d`: one solver step. No bit is ever cleared.
pub(crate) fn merge(data: &mut Vec<Vec<bool>>, s: usize, d: usize) -> (changed: bool)
    requires
        s < old(data)@.len(),
        d < old(data)@.len(),
        old(data)@[s as int]@.len() == old(data)@[d as int]@.len(),
    ensures
        final(data)@.len() == old(data)@.len(),
        forall|i: int| 0 <= i < old(data)@.len() && i != d ==> final(data)@[i] == old(data)@[i],
        final(data)@[d as int]@.len() == old(data)@[d as int]@.len(),
        forall|k: int| 0 <= k < old(data)@[d as int]@.len() ==>
            #[trigger] final(data)@[d as int]@[k] == (old(data)@[d as int]@[k] || old(data)@[s as int]@[k]),
        grows(old(data)@, final(data)@),
        changed == !row_le(old(data)@[s as int]@, old(data)@[d as int]@),
        changed ==> total(final(data)@) > total(old(data)@),
        !changed ==> final(data)@ == old(data)@,
        capacity(final(data)@) == capacity(old(data)@),
{
    let m = data[d].len();
    let mut row: Vec<bool> = Vec::new();
    let mut changed = false;
    let mut k: usize = 0;
    while k < m
        invariant
            k <= m,
            m == data@[d as int]@.len(),
            m == data@[s as int]@.len(),
            s < data@.len(),
            d < data@.len(),
            row@.len() == k,
            forall|k2: int| 0 <= k2 < k ==> #[trigger] row@[k2] == (data@[d as int]@[k2] || data@[s as int]@[k2]),
            changed == exists|k2: int| 0 <= k2 < k && data@[s as int]@[k2] && !data@[d as int]@[k2],
        decreases m - k,
    {
        let a = data[s][k];
        let b = data[d][k];
        if a && !b {
            changed = true;
        }
        row.push(a || b);
        k = k + 1;
    }
    let ghost before = data@;
    proof {
        assert(row_le(before[d as int]@, row@));
        lemma_count_grows(before[d as int]@, row@);
        lemma_total_update(before, d as int, row);
        if !changed {
            assert(row@ =~= before[d as int]@);
        }
    }
    if changed {
        data.set(d, row);
    }
    proof {
        if !changed {
            assert(data@ =~= before);
        } else {
            assert(data@ == before.update(d as int, row));
        }
    }
    changed
}

/// Sets value `v` in node `d`.
pub(crate) fn seed(data: &mut Vec<Vec<bool>>, v: usize, d: usize) -> (changed: bool)
    requires
        d < old(data)@.len(),
        v < old(data)@[d as int]@.len(),
    ensures
        final(data)@.len() == old(data)@.len(),
        forall|i: int| 0 <= i < old(data)@.len() && i != d ==> final(data)@[i] == old(data)@[i],
        final(data)@[d as int]@ == old(data)@[d as int]@.update(v as int, true),
        grows(old(data)@, final(data)@),
        changed == !old(data)@[d as int]@[v as int],
        changed ==> total(final(data)@) > total(old(data)@),
        !changed ==> final(data)@ == old(data)@,
        capacity(final(data)@) == capacity(old(data)@),
{
    if data[d][v] {
        assert(data@[d as int]@.update(v as int, true) =~= data@[d as int]@);
        return false;
    }
    let ghost before = data@;
    let mut row: Vec<bool> = Vec::new();
    let m = data[d].len();
    let mut k: usize = 0;
    while k < m
        invariant
            k <= m,
            m == data@[d as int]@.len(),
            d < data@.len(),
            v < m,
            row@.len() == k,
            forall|k2: int| 0 <= k2 < k ==> #[trigger] row@[k2] == (data@[d as int]@[k2] || k2 == v),
        decreases m - k,
    {
        row.push(data[d][k] || k == v);
        k = k + 1;
    }
    proof {
        assert(row@ =~= before[d as int]@.update(v as int, true));
        assert(row_le(before[d as int]@, row@));
        assert(row@[v as int] && !before[d as int]@[v as int]);
        lemma_count_grows(before[d as int]@, row@);
        lemma_total_update(before, d as int, row);
    }
    data.set(d, row);
    assert(data@ == before.update(d as int, row));
    true
}

// ----- the worklist -----

pub(crate) open spec fn sat(r: Rule, data: Seq<Vec<bool>>) -> bool {
    match r {
        Rule::Seed(v, d) => data[d as int]@[v as int],
        Rule::Subset(s, d) => row_le(data[s as int]@, data[d as int]@),
        Rule::Guarded(v, g, s, d) => data[g as int]@[v as int] ==> row_le(data[s as int]@, data[d as int]@),
    }
}

/// One of the nodes that can break the rule waits on the worklist.
pub(crate) open spec fn pending(r: Rule, work: Seq<usize>) -> bool {
    match r {
        Rule::Seed(_, _) => false,
        Rule::Subset(s, _) => work.contains(s),
        Rule::Guarded(_, g, s, _) => work.contains(g) || work.contains(s),
    }
}

/// Every bit set in `data` is forced by the constraints: each closed
/// assignment holds the value at the node.
pub(crate) open spec fn forced(
    data: Seq<Vec<bool>>,
    ls: Seq<Label>,
    xs: Seq<Variable>,
    vals: Seq<Term>,
    cs: Seq<Constraint>,
) -> bool {
    forall|s2: spec_fn(ConSet) -> Set<Term>, i: int, k: int|
        closed(s2, cs) && 0 <= i < data.len() && 0 <= k < data[i]@.len() && data[i]@[k]
            ==> #[trigger] s2(node_at(ls, xs, i)).contains(vals[k])
}

/// What the solver fixes before it starts: nodes, values, rules and edges.
pub(crate) open spec fn set_up(
    ls: Seq<Label>,
    xs: Seq<Variable>,
    vals: Seq<Term>,
    cs: Seq<Constraint>,
    rules: Seq<Rule>,
    edges: Seq<Vec<usize>>,
) -> bool {
    let n = (ls.len() + xs.len()) as int;
    &&& distinct(vals)
    &&& rules.len() == cs.len()
    &&& forall|j: int| 0 <= j < cs.len() ==> stands_for(#[trigger] rules[j], cs[j], ls, xs, vals)
    &&& forall|j: int| 0 <= j < cs.len() ==> rule_in_range(#[trigger] rules[j], n, vals.len() as int)
    &&& edges.len() == n
    &&& forall|q: int, j: int| 0 <= q < n && 0 <= j < rules.len() && triggered_by(#[trigger] rules[j], q)
        ==> (#[trigger] edges[q])@.contains(j as usize)
    &&& forall|q: int, i: int| 0 <= q < n && 0 <= i < edges[q]@.len() ==> (#[trigger] edges[q]@[i]) < rules.len()
}

pub(crate) proof fn lemma_keeps(
    rules: Seq<Rule>,
    a: Seq<Vec<bool>>,
    b: Seq<Vec<bool>>,
    d: int,
    wa: Seq<usize>,
    wb: Seq<usize>,
    n: int,
    m: int,
)
    requires
        shaped(a, n, m),
        shaped(b, n, m),
        forall|j: int| 0 <= j < rules.len() ==> rule_in_range(#[trigger] rules[j], n, m),
        0 <= d < n,
        forall|i: int| 0 <= i < n && i != d ==> b[i] == a[i],
        row_le(a[d]@, b[d]@),
        b == a || wb.contains(d as usize),
        forall|x: usize| wa.contains(x) ==> wb.contains(x),
    ensures
        forall|j: int| 0 <= j < rules.len() && (sat(rules[j], a) || pending(rules[j], wa))
            ==> (sat(#[trigger] rules[j], b) || pending(rules[j], wb)),
{
    assert forall|j: int| 0 <= j < rules.len() && (sat(rules[j], a) || pending(rules[j], wa))
        implies (sat(#[trigger] rules[j], b) || pending(rules[j], wb)) by {
        assert(rule_in_range(rules[j], n, m));
        if b == a {
        } else {
            match rules[j] {
                Rule::Seed(v, e) => {
                    assert(a[e as int]@[v as int] ==> b[e as int]@[v as int]);
                },
                Rule::Subset(s, e) => {
                    if !pending(rules[j], wa) && s != d {
                        assert forall|k: int| 0 <= k < b[s as int]@.len() && #[trigger] b[s as int]@[k]
                            implies b[e as int]@[k] by {
                            assert(a[s as int]@[k]);
                            assert(a[e as int]@[k]);
                        }
                    }
                },
                Rule::Guarded(v, g, s, e) => {
                    if !pending(rules[j], wa) && s != d && g != d {
                        if b[g as int]@[v as int] {
                            assert(a[g as int]@[v as int]);
                            assert forall|k: int| 0 <= k < b[s as int]@.len() && #[trigger] b[s as int]@[k]
                                implies b[e as int]@[k] by {
                                assert(a[s as int]@[k]);
                                assert(a[e as int]@[k]);
                            }
                        }
                    }
                },
            }
        }
    }
}

/// Applies one rule: merges its source into its target where it applies,
/// and puts the target on the worklist if it grew.
pub(crate) fn apply(
    r: &Rule,
    data: &mut Vec<Vec<bool>>,
    work: &mut Vec<usize>,
    Ghost(ls): Ghost<Seq<Label>>,
    Ghost(xs): Ghost<Seq<Variable>>,
    Ghost(vals): Ghost<Seq<Term>>,
    Ghost(cs): Ghost<Seq<Constraint>>,
    Ghost(j): Ghost<int>,
)
    requires
        0 <= j < cs.len(),
        stands_for(*r, cs[j], ls, xs, vals),
        rule_in_range(*r, (ls.len() + xs.len()) as int, vals.len() as int),
        shaped(old(data)@, (ls.len() + xs.len()) as int, vals.len() as int),
        forced(old(data)@, ls, xs, vals, cs),
        forall|i: int| 0 <= i < old(work)@.len() ==> #[trigger] old(work)@[i] < ls.len() + xs.len(),
    ensures
        shaped(final(data)@, (ls.len() + xs.len()) as int, vals.len() as int),
        grows(old(data)@, final(data)@),
        forced(final(data)@, ls, xs, vals, cs),
        sat(*r, final(data)@),
        forall|i: int| 0 <= i < final(work)@.len() ==> #[trigger] final(work)@[i] < ls.len() + xs.len(),
        forall|x: usize| old(work)@.contains(x) ==> final(work)@.contains(x),
        final(work)@.len() <= old(work)@.len() + total(final(data)@) - total(old(data)@),
        total(final(data)@) >= total(old(data)@),
        capacity(final(data)@) == capacity(old(data)@),
        exists|d: int| 0 <= d < ls.len() + xs.len() && {
            &&& forall|i: int| 0 <= i < ls.len() + xs.len() && i != d ==> final(data)@[i] == old(data)@[i]
            &&& row_le(old(data)@[d]@, final(data)@[d]@)
            &&& (final(data)@ == old(data)@ || final(work)@.contains(d as usize))
        },
{
    let ghost n = ls.len() + xs.len();
    let ghost m = vals.len() as int;
    let ghost a = data@;
    let ghost wa = work@;
    let (d, changed) = match r {
        Rule::Seed(v, d) => {
            let changed = seed(data, *v, *d);
            proof {
                assert forall|s2: spec_fn(ConSet) -> Set<Term>, i: int, k: int|
                    closed(s2, cs) && 0 <= i < data@.len() && 0 <= k < data@[i]@.len() && data@[i]@[k]
                    implies #[trigger] s2(node_at(ls, xs, i)).contains(vals[k]) by {
                    if i == *d as int && k == *v as int {
                        assert(holds(s2, cs[j]));
                        assert(operand(s2, ConSet::SingleTerm(vals[k])).contains(vals[k]));
                    } else {
                        assert(a[i]@[k]);
                    }
                }
            }
            (*d, changed)
        },
        Rule::Subset(s, d) => {
            let changed = merge(data, *s, *d);
            proof {
                assert forall|s2: spec_fn(ConSet) -> Set<Term>, i: int, k: int|
                    closed(s2, cs) && 0 <= i < data@.len() && 0 <= k < data@[i]@.len() && data@[i]@[k]
                    implies #[trigger] s2(node_at(ls, xs, i)).contains(vals[k]) by {
                    if i == *d as int && !a[i]@[k] {
                        assert(a[*s as int]@[k]);
                        assert(s2(node_at(ls, xs, *s as int)).contains(vals[k]));
                        assert(holds(s2, cs[j]));
                    } else {
                        assert(a[i]@[k]);
                    }
                }
            }
            (*d, changed)
        },
        Rule::Guarded(v, g, s, d) => {
            if data[*g][*v] {
                let changed = merge(data, *s, *d);
                proof {
                    assert forall|s2: spec_fn(ConSet) -> Set<Term>, i: int, k: int|
                        closed(s2, cs) && 0 <= i < data@.len() && 0 <= k < data@[i]@.len() && data@[i]@[k]
                        implies #[trigger] s2(node_at(ls, xs, i)).contains(vals[k]) by {
                        if i == *d as int && !a[i]@[k] {
                            assert(a[*s as int]@[k]);
                            assert(s2(node_at(ls, xs, *s as int)).contains(vals[k]));
                            assert(s2(node_at(ls, xs, *g as int)).contains(vals[*v as int]));
                            assert(holds(s2, cs[j]));
                        } else {
                            assert(a[i]@[k]);
                        }
                    }
                }
                (*d, changed)
            } else {
                (*d, false)
            }
        },
    };
    if changed {
        work.push(d);
        assert(work@[work@.len() - 1] == d);
    }
    proof {
        assert forall|x: usize| wa.contains(x) implies work@.contains(x) by {
            let i = choose|i: int| 0 <= i < wa.len() && wa[i] == x;
            assert(work@[i] == x);
        }
        lemma_total_bounded(data@);
    }
}

/// The values whose bits are set in `row`.
pub(crate) open spec fn row_values(row: Seq<bool>, vals: Seq<Term>) -> Set<Term> {
    Set::new(|t: Term| exists|k: int| 0 <= k < row.len() && row[k] && vals[k] == t)
}

pub(crate) fn row_terms(row: &Vec<bool>, vals: &Vec<Term>) -> (r: Vec<Term>)
    requires
        row@.len() == vals@.len(),
    ensures
        r@.to_set() == row_values(row@, vals@),
{
    let mut r: Vec<Term> = Vec::new();
    let mut k: usize = 0;
    while k < row.len()
        invariant
            k <= row@.len(),
            row@.len() == vals@.len(),
            forall|t: Term| r@.contains(t) <==> exists|k2: int| 0 <= k2 < k && row@[k2] && #[trigger] vals@[k2] == t,
        decreases row@.len() - k,
    {
        let ghost before = r@;
        if row[k] {
            r.push(vals[k].duplicate());
        }
        assert forall|t: Term| r@.contains(t) <==> exists|k2: int| 0 <= k2 < k + 1 && row@[k2] && #[trigger] vals@[k2] == t by {
            if r@.contains(t) {
                let i = choose|i: int| 0 <= i < r@.len() && r@[i] == t;
                if i < before.len() {
                    assert(before.contains(t));
                } else {
                    assert(row@[k as int] && vals@[k as int] == t);
                }
            }
            if exists|k2: int| 0 <= k2 < k + 1 && row@[k2] && #[trigger] vals@[k2] == t {
                let k2 = choose|k2: int| 0 <= k2 < k + 1 && row@[k2] && #[trigger] vals@[k2] == t;
                if k2 < k {
                    assert(before.contains(t));
                    let i = choose|i: int| 0 <= i < before.len() && before[i] == t;
                    assert(r@[i] == t);
                } else {
                    assert(r@[r@.len() - 1] == t);
                }
            }
        }
        k = k + 1;
    }
    assert(r@.to_set() =~= row_values(row@, vals@));
    r
}

/// Runs the worklist to its end: every rule then holds, and every bit set
/// is forced by the constraints.
pub(crate) fn solve(
    rules: &Vec<Rule>,
    edges: &Vec<Vec<usize>>,
    n: usize,
    m: usize,
    Ghost(ls): Ghost<Seq<Label>>,
    Ghost(xs): Ghost<Seq<Variable>>,
    Ghost(vals): Ghost<Seq<Term>>,
    Ghost(cs): Ghost<Seq<Constraint>>,
) -> (data: Vec<Vec<bool>>)
    requires
        set_up(ls, xs, vals, cs, rules@, edges@),
        n == ls.len() + xs.len(),
        m == vals.len(),
    ensures
        shaped(data@, n as int, m as int),
        forced(data@, ls, xs, vals, cs),
        forall|j: int| 0 <= j < rules@.len() ==> #[trigger] sat(rules@[j], data@),
{
    // Initialization: every node starts empty.
    let mut data: Vec<Vec<bool>> = Vec::new();
    let mut i: usize = 0;
    while i < n
        invariant
            i <= n,
            data@.len() == i,
            forall|i2: int| 0 <= i2 < i ==> (#[trigger] data@[i2])@.len() == m,
            forall|i2: int, k: int| 0 <= i2 < i && 0 <= k < m ==> !(#[trigger] data@[i2]@[k]),
        decreases n - i,
    {
        let mut row: Vec<bool> = Vec::new();
        let mut k: usize = 0;
        while k < m
            invariant
                k <= m,
                row@.len() == k,
                forall|k2: int| 0 <= k2 < k ==> !(#[trigger] row@[k2]),
            decreases m - k,
        {
            row.push(false);
            k = k + 1;
        }
        data.push(row);
        assert(data@[i as int] == row);
        i = i + 1;
    }
    // Literal constraints seed their targets.
    let mut work: Vec<usize> = Vec::new();
    let mut j: usize = 0;
    while j < rules.len()
        invariant
            set_up(ls, xs, vals, cs, rules@, edges@),
            n == ls.len() + xs.len(),
            m == vals.len(),
            j <= rules@.len(),
            shaped(data@, n as int, m as int),
            forced(data@, ls, xs, vals, cs),
            forall|i: int| 0 <= i < work@.len() ==> #[trigger] work@[i] < n,
            forall|i: int, k: int| 0 <= i < n && 0 <= k < m && #[trigger] data@[i]@[k] ==> work@.contains(i as usize),
            forall|j2: int| 0 <= j2 < j && (#[trigger] rules@[j2]) is Seed ==> sat(rules@[j2], data@),
        decreases rules@.len() - j,
    {
        assert(stands_for(rules@[j as int], cs[j as int], ls, xs, vals));
        assert(rule_in_range(rules@[j as int], n as int, m as int));
        if let Rule::Seed(v, d) = &rules[j] {
            let ghost a = data@;
            let ghost wa = work@;
            apply(&rules[j], &mut data, &mut work, Ghost(ls), Ghost(xs), Ghost(vals), Ghost(cs), Ghost(j as int));
            proof {
                let e = choose|e: int| 0 <= e < n && {
                    &&& forall|i: int| 0 <= i < n && i != e ==> data@[i] == a[i]
                    &&& row_le(a[e]@, data@[e]@)
                    &&& (data@ == a || work@.contains(e as usize))
                };
                assert forall|i: int, k: int| 0 <= i < n && 0 <= k < m && #[trigger] data@[i]@[k]
                    implies work@.contains(i as usize) by {
                    if !a[i]@[k] {
                        assert(i == e);
                        assert(data@ != a);
                    } else {
                        assert(wa.contains(i as usize));
                    }
                }
                assert forall|j2: int| 0 <= j2 < j + 1 && (#[trigger] rules@[j2]) is Seed
                    implies sat(rules@[j2], data@) by {
                    if j2 < j {
                        assert(sat(rules@[j2], a));
                        assert(rule_in_range(rules@[j2], n as int, m as int));
                    }
                }
            }
        }
        j = j + 1;
    }
    proof {
        assert forall|j2: int| 0 <= j2 < rules@.len() implies
            (sat(#[trigger] rules@[j2], data@) || pending(rules@[j2], work@)) by {
            assert(rule_in_range(rules@[j2], n as int, m as int));
            match rules@[j2] {
                Rule::Seed(_, _) => {},
                Rule::Subset(s, d) => {
                    if !work@.contains(s) {
                        assert forall|k: int| 0 <= k < data@[s as int]@.len() && #[trigger] data@[s as int]@[k]
                            implies data@[d as int]@[k] by {
                            assert(work@.contains(s as int as usize));
                        }
                    }
                },
                Rule::Guarded(_, g, s, d) => {
                    if !work@.contains(s) && !work@.contains(g) {
                        assert forall|k: int| 0 <= k < data@[s as int]@.len() && #[trigger] data@[s as int]@[k]
                            implies data@[d as int]@[k] by {
                            assert(work@.contains(s as int as usize));
                        }
                    }
                },
            }
        }
    }
    // Iteration: take a node off the worklist and re-apply the rules it can break.
    while work.len() > 0
        invariant
            set_up(ls, xs, vals, cs, rules@, edges@),
            n == ls.len() + xs.len(),
            m == vals.len(),
            shaped(data@, n as int, m as int),
            forced(data@, ls, xs, vals, cs),
            forall|i: int| 0 <= i < work@.len() ==> #[trigger] work@[i] < n,
            forall|j2: int| 0 <= j2 < rules@.len() ==> (sat(#[trigger] rules@[j2], data@) || pending(rules@[j2], work@)),
        decreases capacity(data@) - total(data@), work@.len(),
    {
        proof {
            lemma_total_bounded(data@);
        }
        let ghost t0 = total(data@);
        let ghost c0 = capacity(data@);
        let ghost w_full = work@;
        let q = work.pop().unwrap();
        let ghost w0 = work@.len();
        assert(w_full == work@.push(q));
        assert(q < n) by {
            assert(w_full[w_full.len() - 1] == q);
        }
        let es = &edges[q];
        proof {
            assert forall|j2: int| 0 <= j2 < rules@.len() implies
                (sat(#[trigger] rules@[j2], data@) || pending(rules@[j2], work@)
                    || exists|i2: int| 0 <= i2 < es@.len() && es@[i2] == j2 as usize) by {
                if !sat(rules@[j2], data@) && !pending(rules@[j2], work@) {
                    assert(pending(rules@[j2], w_full));
                    assert forall|x: usize| w_full.contains(x) && x != q implies work@.contains(x) by {
                        let i = choose|i: int| 0 <= i < w_full.len() && w_full[i] == x;
                        assert(work@[i] == x);
                    }
                    assert(triggered_by(rules@[j2], q as int));
                    assert(edges@[q as int]@.contains(j2 as usize));
                }
            }
        }
        let num_rules = rules.len();
        let mut idx: usize = 0;
        while idx < es.len()
            invariant
                set_up(ls, xs, vals, cs, rules@, edges@),
                n == ls.len() + xs.len(),
                m == vals.len(),
                q < n,
                num_rules == rules@.len(),
                es == edges@[q as int],
                idx <= es@.len(),
                shaped(data@, n as int, m as int),
                forced(data@, ls, xs, vals, cs),
                forall|i: int| 0 <= i < work@.len() ==> #[trigger] work@[i] < n,
                forall|j2: int| 0 <= j2 < rules@.len() ==> (sat(#[trigger] rules@[j2], data@) || pending(rules@[j2], work@)
                    || exists|i2: int| idx <= i2 < es@.len() && es@[i2] == j2 as usize),
                total(data@) >= t0,
                capacity(data@) == c0,
                work@.len() <= w0 + total(data@) - t0,
            decreases es@.len() - idx,
        {
            let jj = es[idx];
            assert(jj < rules@.len());
            assert(stands_for(rules@[jj as int], cs[jj as int], ls, xs, vals));
            assert(rule_in_range(rules@[jj as int], n as int, m as int));
            let ghost a = data@;
            let ghost wa = work@;
            apply(&rules[jj], &mut data, &mut work, Ghost(ls), Ghost(xs), Ghost(vals), Ghost(cs), Ghost(jj as int));
            proof {
                let d = choose|d: int| 0 <= d < n && {
                    &&& forall|i: int| 0 <= i < n && i != d ==> data@[i] == a[i]
                    &&& row_le(a[d]@, data@[d]@)
                    &&& (data@ == a || work@.contains(d as usize))
                };
                lemma_keeps(rules@, a, data@, d, wa, work@, n as int, m as int);
                assert forall|j2: int| 0 <= j2 < rules@.len() implies (sat(#[trigger] rules@[j2], data@) || pending(rules@[j2], work@)
                    || exists|i2: int| idx + 1 <= i2 < es@.len() && es@[i2] == j2 as usize) by {
                    if j2 != jj as int && !sat(rules@[j2], a) && !pending(rules@[j2], wa) {
                        let i2 = choose|i2: int| idx <= i2 < es@.len() && es@[i2] == j2 as usize;
                        assert(es@[idx as int] == jj);
                        if i2 == idx {
                            assert(j2 as usize == jj);
                            assert(j2 < rules@.len());
                            assert(j2 == jj as int);
                        }
                    }
                }
            }
            idx = idx + 1;
        }
        proof {
            lemma_total_bounded(data@);
            if total(data@) == t0 {
                assert(work@.len() < w_full.len());
            }
        }
    }
    data
}

} // verus!

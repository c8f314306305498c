//! Unifying two templates: patterns of literals, host values, structures, complete lists
//! and complete records, with variables that have no value, none of them twice and none on
//! both sides. When unification succeeds, both sides apply to the same term (literals
//! compared by value).
use crate::apply::{
    apply_pattern, apply_list, apply_fields, applied, applied_kind, applied_list, applied_fields,
    applied_tail, same_term, same_kind, same_list, same_fields, same_option, pattern_depth, list_depth,
    fields_depth, max_nat, lemma_apply_applied, BindingError,
};
use crate::binding::{BindingView, lookup, self_pattern};
use crate::literal::literal_eq;
use crate::matching::{template, template_kind, template_list, template_fields, template_vars, kind_template_vars, list_template_vars, fields_template_vars};
use crate::pattern::{Pattern, PatternKind, PatternList, FieldList, with_default_age, make_record, pattern_of, pattern_variables, kind_variables, list_variables, field_variables, option_variables, fields_len, list_len};
use crate::unify_laws::is_unbound_in;
use crate::variable::{Variable, set_current, variable_lt};
use vstd::prelude::*;

verus! {

/// Whether the template `p` has no variable twice and no list with a rest.
pub open spec fn linear(p: Pattern) -> bool
    decreases p,
{
    linear_kind(*p.kind)
}

/// [`linear`] for a shape.
pub open spec fn linear_kind(k: PatternKind) -> bool
    decreases k,
{
    match k {
        PatternKind::Struct(_, Some(c)) => linear(c),
        PatternKind::List(items, None) => linear_list(items),
        PatternKind::List(_, Some(_)) => false,
        PatternKind::Record(fields, None) => linear_fields(fields),
        _ => true,
    }
}

/// [`linear`] for the patterns of a list, no variable in two of them.
pub open spec fn linear_list(l: PatternList) -> bool
    decreases l,
{
    match l {
        PatternList::Nil => true,
        PatternList::Cons(p, rest) => linear(p) && linear_list(*rest)
            && template_vars(p).disjoint(list_template_vars(*rest)),
    }
}

/// [`linear`] for the fields of a record, no variable in two of them.
pub open spec fn linear_fields(f: FieldList) -> bool
    decreases f,
{
    match f {
        FieldList::Nil => true,
        FieldList::Cons(_, p, rest) => linear(p) && linear_fields(*rest)
            && template_vars(p).disjoint(fields_template_vars(*rest)),
    }
}

/// Whether every variable of `s` has no value in `b`.
pub open spec fn all_unbound(b: BindingView, s: Set<Variable>) -> bool {
    forall|u: Variable| #[trigger] s.contains(u) ==> is_unbound_in(u, b)
}

/// The earlier of two variables in the order of variables.
pub open spec fn earlier(x: Variable, y: Variable) -> Variable {
    if variable_lt(x, y) { x } else { y }
}

/// Whether `b` joins the templates `p` and `q` place by place: two variables both stand for
/// the earlier of them, which has no value; a variable facing another shape stands for it,
/// whose variables have no value; literals are equal in value, host values and names the
/// same.
pub open spec fn joins(b: BindingView, p: Pattern, q: Pattern) -> bool
    decreases p,
{
    joins_kind(b, *p.kind, *q.kind)
}

/// [`joins`] for shapes.
pub open spec fn joins_kind(b: BindingView, k1: PatternKind, k2: PatternKind) -> bool
    decreases k1,
{
    match k1 {
        PatternKind::Variable(x) => match k2 {
            PatternKind::Variable(y) => {
                &&& lookup(b.entries, x) == Some(self_pattern(earlier(x, y)))
                &&& lookup(b.entries, y) == Some(self_pattern(earlier(x, y)))
            },
            _ => lookup(b.entries, x) matches Some(e) && *e.kind == k2 && all_unbound(b, kind_template_vars(k2)),
        },
        _ => match k2 {
            PatternKind::Variable(y) => lookup(b.entries, y) matches Some(e) && *e.kind == k1
                && all_unbound(b, kind_template_vars(k1)),
            _ => match k1 {
                PatternKind::Literal(a) => match k2 {
                    PatternKind::Literal(c) => literal_eq(a, c),
                    _ => false,
                },
                PatternKind::Any(x) => match k2 {
                    PatternKind::Any(y) => x == y,
                    _ => false,
                },
                PatternKind::Struct(n1, c1) => match k2 {
                    PatternKind::Struct(n2, c2) => n1 == n2 && match c1 {
                        None => c2 is None,
                        Some(a) => match c2 {
                            Some(c) => joins(b, a, c),
                            None => false,
                        },
                    },
                    _ => false,
                },
                PatternKind::List(i1, None) => match k2 {
                    PatternKind::List(i2, None) => joins_list(b, i1, i2),
                    _ => false,
                },
                PatternKind::Record(f1, None) => match k2 {
                    PatternKind::Record(f2, None) => joins_fields(b, f1, f2),
                    _ => false,
                },
                _ => false,
            },
        },
    }
}

/// [`joins`] for lists, item by item.
pub open spec fn joins_list(b: BindingView, l1: PatternList, l2: PatternList) -> bool
    decreases l1,
{
    match l1 {
        PatternList::Nil => l2 is Nil,
        PatternList::Cons(p, r1) => match l2 {
            PatternList::Cons(q, r2) => joins(b, p, q) && joins_list(b, *r1, *r2),
            PatternList::Nil => false,
        },
    }
}

/// [`joins`] for fields, name by name.
pub open spec fn joins_fields(b: BindingView, f1: FieldList, f2: FieldList) -> bool
    decreases f1,
{
    match f1 {
        FieldList::Nil => f2 is Nil,
        FieldList::Cons(k1, p, r1) => match f2 {
            FieldList::Cons(k2, q, r2) => k1 == k2 && joins(b, p, q) && joins_fields(b, *r1, *r2),
            FieldList::Nil => false,
        },
    }
}

/// Whether two patterns are the same term, literals compared by value: the same shapes,
/// names, host values and variables, literals of equal value.
pub open spec fn alike(p: Pattern, q: Pattern) -> bool
    decreases p,
{
    alike_kind(*p.kind, *q.kind)
}

/// [`alike`] for shapes.
pub open spec fn alike_kind(k1: PatternKind, k2: PatternKind) -> bool
    decreases k1,
{
    match k1 {
        PatternKind::Literal(a) => match k2 {
            PatternKind::Literal(c) => literal_eq(a, c),
            _ => false,
        },
        PatternKind::Struct(n1, c1) => match k2 {
            PatternKind::Struct(n2, c2) => n1 == n2 && match c1 {
                None => c2 is None,
                Some(a) => match c2 {
                    Some(c) => alike(a, c),
                    None => false,
                },
            },
            _ => false,
        },
        PatternKind::List(i1, t1) => match k2 {
            PatternKind::List(i2, t2) => alike_list(i1, i2) && match t1 {
                None => t2 is None,
                Some(a) => match t2 {
                    Some(c) => alike(a, c),
                    None => false,
                },
            },
            _ => false,
        },
        PatternKind::Record(f1, t1) => match k2 {
            PatternKind::Record(f2, t2) => alike_fields(f1, f2) && match t1 {
                None => t2 is None,
                Some(a) => match t2 {
                    Some(c) => alike(a, c),
                    None => false,
                },
            },
            _ => false,
        },
        PatternKind::All(i1) => match k2 {
            PatternKind::All(i2) => alike_list(i1, i2),
            _ => false,
        },
        _ => k1 == k2,
    }
}

/// [`alike`] for lists, item by item.
pub open spec fn alike_list(l1: PatternList, l2: PatternList) -> bool
    decreases l1,
{
    match l1 {
        PatternList::Nil => l2 is Nil,
        PatternList::Cons(p, r1) => match l2 {
            PatternList::Cons(q, r2) => alike(p, q) && alike_list(*r1, *r2),
            PatternList::Nil => false,
        },
    }
}

/// [`alike`] for fields, name by name.
pub open spec fn alike_fields(f1: FieldList, f2: FieldList) -> bool
    decreases f1,
{
    match f1 {
        FieldList::Nil => f2 is Nil,
        FieldList::Cons(k1, p, r1) => match f2 {
            FieldList::Cons(k2, q, r2) => k1 == k2 && alike(p, q) && alike_fields(*r1, *r2),
            FieldList::Nil => false,
        },
    }
}


/// A linear template whose variables have no value is in applied form.
proof fn lemma_unbound_template_applied(b: BindingView, p: Pattern)
    requires
        template(p),
        linear(p),
        all_unbound(b, template_vars(p)),
    ensures
        applied(b, p),
    decreases p,
{
    assert(template_kind(*p.kind));
    assert(linear_kind(*p.kind));
    match *p.kind {
        PatternKind::Variable(v) => {
            assert(template_vars(p).contains(v));
            assert(is_unbound_in(v, b));
            assert(applied_kind(b, *p.kind));
        },
        PatternKind::Struct(_, Some(c)) => {
            assert(template_vars(p) == template_vars(c));
            lemma_unbound_template_applied(b, c);
        },
        PatternKind::List(items, _) => {
            assert(template_vars(p) == list_template_vars(items));
            lemma_unbound_list_applied(b, items);
            assert(applied_tail(b, None));
        },
        PatternKind::Record(fields, _) => {
            assert(template_vars(p) == fields_template_vars(fields));
            lemma_unbound_fields_applied(b, fields);
            assert(applied_tail(b, None));
        },
        _ => {},
    }
    assert(applied_kind(b, *p.kind));
}

proof fn lemma_unbound_list_applied(b: BindingView, l: PatternList)
    requires
        template_list(l),
        linear_list(l),
        all_unbound(b, list_template_vars(l)),
    ensures
        applied_list(b, l),
    decreases l,
{
    if let PatternList::Cons(p, rest) = l {
        assert forall|u: Variable| #[trigger] template_vars(p).contains(u) implies is_unbound_in(u, b) by {
            assert(list_template_vars(l).contains(u));
        }
        assert forall|u: Variable| #[trigger] list_template_vars(*rest).contains(u) implies is_unbound_in(u, b) by {
            assert(list_template_vars(l).contains(u));
        }
        lemma_unbound_template_applied(b, p);
        lemma_unbound_list_applied(b, *rest);
    }
}

proof fn lemma_unbound_fields_applied(b: BindingView, f: FieldList)
    requires
        template_fields(f),
        linear_fields(f),
        all_unbound(b, fields_template_vars(f)),
    ensures
        applied_fields(b, f),
    decreases f,
{
    if let FieldList::Cons(_, p, rest) = f {
        assert forall|u: Variable| #[trigger] template_vars(p).contains(u) implies is_unbound_in(u, b) by {
            assert(fields_template_vars(f).contains(u));
        }
        assert forall|u: Variable| #[trigger] fields_template_vars(*rest).contains(u) implies is_unbound_in(u, b) by {
            assert(fields_template_vars(f).contains(u));
        }
        lemma_unbound_template_applied(b, p);
        lemma_unbound_fields_applied(b, *rest);
    }
}

/// Two terms of the same shape as a third are the same term, literals compared by value.
proof fn lemma_same_terms_alike(r1: Pattern, r2: Pattern, x: Pattern)
    requires
        same_term(r1, x),
        same_term(r2, x),
    ensures
        alike(r1, r2),
    decreases x,
{
    assert(same_kind(*r1.kind, *x.kind));
    assert(same_kind(*r2.kind, *x.kind));
    match *x.kind {
        PatternKind::Struct(_, Some(c)) => {
            if let PatternKind::Struct(_, Some(a1)) = *r1.kind {
                if let PatternKind::Struct(_, Some(a2)) = *r2.kind {
                    lemma_same_terms_alike(a1, a2, c);
                }
            }
        },
        PatternKind::List(ix, tx) => {
            if let PatternKind::List(i1, t1) = *r1.kind {
                if let PatternKind::List(i2, t2) = *r2.kind {
                    lemma_same_lists_alike(i1, i2, ix);
                    if let Some(c) = tx {
                        lemma_same_terms_alike(t1.unwrap(), t2.unwrap(), c);
                    }
                }
            }
        },
        PatternKind::Record(fx, tx) => {
            if let PatternKind::Record(f1, t1) = *r1.kind {
                if let PatternKind::Record(f2, t2) = *r2.kind {
                    lemma_same_fields_alike(f1, f2, fx);
                    if let Some(c) = tx {
                        lemma_same_terms_alike(t1.unwrap(), t2.unwrap(), c);
                    }
                }
            }
        },
        PatternKind::All(ix) => {
            if let PatternKind::All(i1) = *r1.kind {
                if let PatternKind::All(i2) = *r2.kind {
                    lemma_same_lists_alike(i1, i2, ix);
                }
            }
        },
        PatternKind::Literal(l) => {
            if let crate::literal::Literal::Rational(n, d) = l {
                assert(n * d == n * d);
            }
        },
        _ => {},
    }
}

proof fn lemma_same_lists_alike(l1: PatternList, l2: PatternList, lx: PatternList)
    requires
        same_list(l1, lx),
        same_list(l2, lx),
    ensures
        alike_list(l1, l2),
    decreases lx,
{
    if let PatternList::Cons(x, rx) = lx {
        if let PatternList::Cons(a, r1) = l1 {
            if let PatternList::Cons(c, r2) = l2 {
                lemma_same_terms_alike(a, c, x);
                lemma_same_lists_alike(*r1, *r2, *rx);
            }
        }
    }
}

proof fn lemma_same_fields_alike(f1: FieldList, f2: FieldList, fx: FieldList)
    requires
        same_fields(f1, fx),
        same_fields(f2, fx),
    ensures
        alike_fields(f1, f2),
    decreases fx,
{
    if let FieldList::Cons(_, x, rx) = fx {
        if let FieldList::Cons(_, a, r1) = f1 {
            if let FieldList::Cons(_, c, r2) = f2 {
                lemma_same_terms_alike(a, c, x);
                lemma_same_fields_alike(*r1, *r2, *rx);
            }
        }
    }
}

/// The variables that a pattern lists are those of the template, each with its generation.
proof fn lemma_template_variables(p: Pattern)
    requires
        template(p),
    ensures
        forall|i: int| 0 <= i < pattern_variables(p).len()
            ==> template_vars(p).contains(#[trigger] pattern_variables(p)[i]),
    decreases p,
{
    lemma_kind_template_variables(*p.kind);
    assert(template_kind(*p.kind));
    let kv = kind_variables(*p.kind);
    assert forall|i: int| 0 <= i < pattern_variables(p).len()
        implies template_vars(p).contains(#[trigger] pattern_variables(p)[i]) by {
        assert(pattern_variables(p)[i] == set_current(kv[i], p.age));
        assert(kv[i].generation is Some);
    }
}

proof fn lemma_kind_template_variables(k: PatternKind)
    requires
        template_kind(k),
    ensures
        forall|i: int| 0 <= i < kind_variables(k).len()
            ==> kind_template_vars(k).contains(#[trigger] kind_variables(k)[i]) && kind_variables(k)[i].generation is Some,
    decreases k,
{
    match k {
        PatternKind::Variable(v) => {
            assert(kind_variables(k) =~= seq![v]);
        },
        PatternKind::Struct(_, Some(c)) => {
            lemma_template_variables(c);
            lemma_pattern_variables_have_generations(c);
        },
        PatternKind::List(items, tail) => {
            lemma_list_template_variables(items);
            let lv = list_variables(items);
            let ov = option_variables(tail);
            if let Some(t) = tail {
                lemma_template_variables(t);
                lemma_pattern_variables_have_generations(t);
            }
            assert forall|i: int| 0 <= i < kind_variables(k).len()
                implies kind_template_vars(k).contains(#[trigger] kind_variables(k)[i]) && kind_variables(k)[i].generation is Some by {
                assert(kind_variables(k) == lv + ov);
                if i >= lv.len() {
                    assert(kind_variables(k)[i] == ov[i - lv.len()]);
                }
            }
        },
        PatternKind::Record(fields, _) => {
            lemma_fields_template_variables(fields);
            assert(kind_variables(k) =~= field_variables(fields) + option_variables(None::<Pattern>));
        },
        _ => {
            assert(kind_variables(k) =~= Seq::<Variable>::empty());
        },
    }
}

proof fn lemma_pattern_variables_have_generations(p: Pattern)
    requires
        template(p),
    ensures
        forall|i: int| 0 <= i < pattern_variables(p).len() ==> (#[trigger] pattern_variables(p)[i]).generation is Some,
    decreases p,
{
    lemma_kind_template_variables(*p.kind);
    let kv = kind_variables(*p.kind);
    assert forall|i: int| 0 <= i < pattern_variables(p).len() implies (#[trigger] pattern_variables(p)[i]).generation is Some by {
        assert(pattern_variables(p)[i] == set_current(kv[i], p.age));
    }
}

proof fn lemma_list_template_variables(l: PatternList)
    requires
        template_list(l),
    ensures
        forall|i: int| 0 <= i < list_variables(l).len()
            ==> list_template_vars(l).contains(#[trigger] list_variables(l)[i]) && list_variables(l)[i].generation is Some,
    decreases l,
{
    if let PatternList::Cons(p, rest) = l {
        lemma_template_variables(p);
        lemma_pattern_variables_have_generations(p);
        lemma_list_template_variables(*rest);
        let pv = pattern_variables(p);
        let rv = list_variables(*rest);
        assert forall|i: int| 0 <= i < list_variables(l).len()
            implies list_template_vars(l).contains(#[trigger] list_variables(l)[i]) && list_variables(l)[i].generation is Some by {
            if i >= pv.len() {
                assert(list_variables(l)[i] == rv[i - pv.len()]);
            } else {
                assert(list_variables(l)[i] == pv[i]);
            }
        }
    }
}

proof fn lemma_fields_template_variables(f: FieldList)
    requires
        template_fields(f),
    ensures
        forall|i: int| 0 <= i < field_variables(f).len()
            ==> fields_template_vars(f).contains(#[trigger] field_variables(f)[i]) && field_variables(f)[i].generation is Some,
    decreases f,
{
    if let FieldList::Cons(_, p, rest) = f {
        lemma_template_variables(p);
        lemma_pattern_variables_have_generations(p);
        lemma_fields_template_variables(*rest);
        let pv = pattern_variables(p);
        let rv = field_variables(*rest);
        assert forall|i: int| 0 <= i < field_variables(f).len()
            implies fields_template_vars(f).contains(#[trigger] field_variables(f)[i]) && field_variables(f)[i].generation is Some by {
            if i >= pv.len() {
                assert(field_variables(f)[i] == rv[i - pv.len()]);
            } else {
                assert(field_variables(f)[i] == pv[i]);
            }
        }
    }
}

/// A variable does not occur among variables that have no value and are not it.
proof fn lemma_not_among_unbound(x: Variable, vars: Seq<Variable>, b: BindingView, fuel: nat)
    requires
        forall|i: int| 0 <= i < vars.len() ==> #[trigger] vars[i] != x && is_unbound_in(vars[i], b),
    ensures
        !crate::unify::occurs_any(x, vars, b, fuel),
    decreases vars.len(),
{
    if vars.len() > 0 {
        let u = vars[0];
        assert(u != x && is_unbound_in(u, b));
        assert(b.get(u) == Some(self_pattern(u)));
        assert forall|i: int| 0 <= i < vars.drop_first().len() implies #[trigger] vars.drop_first()[i] != x && is_unbound_in(vars.drop_first()[i], b) by {
            assert(vars.drop_first()[i] == vars[i + 1]);
        }
        lemma_not_among_unbound(x, vars.drop_first(), b, fuel);
    }
}

/// A variable does not occur in a template whose variables have no value and are not it.
proof fn lemma_no_occurs(x: Variable, t: Pattern, b: BindingView, fuel: nat)
    requires
        template(t),
        all_unbound(b, template_vars(t)),
        !template_vars(t).contains(x),
    ensures
        !crate::unify::occurs(x, t, b, fuel),
{
    lemma_template_variables(t);
    let vars = pattern_variables(t);
    assert forall|i: int| 0 <= i < vars.len() implies #[trigger] vars[i] != x && is_unbound_in(vars[i], b) by {
        assert(template_vars(t).contains(vars[i]));
    }
    lemma_not_among_unbound(x, vars, b, fuel);
}

/// Joined templates apply to the same term, literals compared by value (given more steps
/// than the two nest together).
pub proof fn lemma_apply_joined(b: BindingView, p: Pattern, q: Pattern, fuel: nat)
    requires
        template(p),
        template(q),
        linear(p),
        linear(q),
        joins(b, p, q),
        pattern_depth(p) + pattern_depth(q) < fuel,
    ensures
        apply_pattern(b, p, fuel) matches Ok(r1) && apply_pattern(b, q, fuel) matches Ok(r2) && alike(r1, r2),
    decreases fuel, 0nat,
{
    let f = (fuel - 1) as nat;
    let pa = match p.age { Some(a) => Some(a), None => Some(b.generation()) };
    let qa = match q.age { Some(a) => Some(a), None => Some(b.generation()) };
    assert(template_kind(*p.kind));
    assert(template_kind(*q.kind));
    assert(linear_kind(*p.kind));
    assert(linear_kind(*q.kind));
    assert(joins_kind(b, *p.kind, *q.kind));
    if let PatternKind::Variable(x) = *p.kind {
        if let PatternKind::Variable(y) = *q.kind {
            let m = earlier(x, y);
            let sm = self_pattern(m);
            assert(set_current(x, pa) == x);
            assert(set_current(y, qa) == y);
            assert(m.generation is Some);
            assert(set_current(m, m.generation) == m);
            assert(with_default_age(sm, pa) == sm);
            assert(with_default_age(sm, qa) == sm);
            assert(lookup(b.entries, m) == Some(sm));
            assert(apply_pattern(b, sm, f) == Ok::<Pattern, BindingError>(sm));
            assert(apply_pattern(b, p, fuel) == Ok::<Pattern, BindingError>(sm));
            assert(apply_pattern(b, q, fuel) == Ok::<Pattern, BindingError>(sm));
            assert(alike_kind(*sm.kind, *sm.kind));
        } else {
            lemma_apply_var_joined(b, x, p, q, fuel);
        }
    } else if let PatternKind::Variable(y) = *q.kind {
        lemma_apply_var_joined(b, y, q, p, fuel);
        lemma_alike_symmetric(apply_pattern(b, q, fuel)->Ok_0, apply_pattern(b, p, fuel)->Ok_0);
    } else {
        match *p.kind {
            PatternKind::Struct(n1, c1) => {
                if let PatternKind::Struct(n2, c2) = *q.kind {
                    if let Some(a) = c1 {
                        let c = c2.unwrap();
                        crate::matching::lemma_template_default_age(a, pa);
                        crate::matching::lemma_template_default_age(c, qa);
                        let aa = with_default_age(a, pa);
                        let ca = with_default_age(c, qa);
                        assert(joins(b, aa, ca) == joins(b, a, c));
                        assert(pattern_depth(aa) == pattern_depth(a));
                        assert(pattern_depth(ca) == pattern_depth(c));
                        lemma_apply_joined(b, aa, ca, f);
                    }
                }
            },
            PatternKind::List(i1, _) => {
                if let PatternKind::List(i2, _) = *q.kind {
                    lemma_apply_list_joined(b, i1, i2, pa, qa, f);
                }
            },
            PatternKind::Record(f1, _) => {
                if let PatternKind::Record(f2, _) = *q.kind {
                    lemma_apply_fields_joined(b, f1, f2, pa, qa, f);
                    if let Ok(g1) = apply_fields(b, f1, pa, f) {
                        assert(make_record(g1, None) == PatternKind::Record(g1, None));
                    }
                    if let Ok(g2) = apply_fields(b, f2, qa, f) {
                        assert(make_record(g2, None) == PatternKind::Record(g2, None));
                    }
                }
            },
            PatternKind::Literal(..) => {},
            _ => {},
        }
    }
}

/// [`lemma_apply_joined`] where `p` is a variable `x` joined with the template `q`, which is
/// not a variable.
proof fn lemma_apply_var_joined(b: BindingView, x: Variable, p: Pattern, q: Pattern, fuel: nat)
    requires
        *p.kind == PatternKind::Variable(x),
        x.generation is Some,
        template(q),
        linear(q),
        !(*q.kind is Variable),
        lookup(b.entries, x) matches Some(e) && *e.kind == *q.kind && all_unbound(b, kind_template_vars(*q.kind)),
        1 + pattern_depth(q) < fuel,
    ensures
        apply_pattern(b, p, fuel) matches Ok(r1) && apply_pattern(b, q, fuel) matches Ok(r2) && alike(r1, r2),
{
    let f = (fuel - 1) as nat;
    let pa = match p.age { Some(a) => Some(a), None => Some(b.generation()) };
    let e = lookup(b.entries, x).unwrap();
    assert(set_current(x, pa) == x);
    let ea = with_default_age(e, pa);
    assert(template_kind(*q.kind));
    assert(*ea.kind == *e.kind);
    assert(template(ea));
    assert(linear(ea) == linear_kind(*q.kind));
    assert(linear(ea));
    assert(template_vars(ea) == kind_template_vars(*q.kind));
    assert(template_vars(q) == kind_template_vars(*q.kind));
    lemma_unbound_template_applied(b, ea);
    lemma_unbound_template_applied(b, q);
    assert(pattern_depth(ea) == pattern_depth(q));
    lemma_apply_applied(b, ea, f);
    lemma_apply_applied(b, q, fuel);
    assert(apply_pattern(b, p, fuel) == apply_pattern(b, ea, f));
    let r1 = apply_pattern(b, ea, f)->Ok_0;
    let r2 = apply_pattern(b, q, fuel)->Ok_0;
    assert(same_term(r1, ea) == same_kind(*r1.kind, *ea.kind));
    assert(same_term(r1, q) == same_kind(*r1.kind, *q.kind));
    lemma_same_terms_alike(r1, r2, q);
}

proof fn lemma_alike_symmetric(p: Pattern, q: Pattern)
    requires
        alike(p, q),
    ensures
        alike(q, p),
    decreases p,
{
    assert(alike_kind(*p.kind, *q.kind));
    match *p.kind {
        PatternKind::Struct(_, Some(a)) => {
            if let PatternKind::Struct(_, Some(c)) = *q.kind {
                lemma_alike_symmetric(a, c);
            }
        },
        PatternKind::List(i1, t1) => {
            if let PatternKind::List(i2, t2) = *q.kind {
                lemma_alike_list_symmetric(i1, i2);
                if let Some(a) = t1 {
                    lemma_alike_symmetric(a, t2.unwrap());
                }
            }
        },
        PatternKind::Record(f1, t1) => {
            if let PatternKind::Record(f2, t2) = *q.kind {
                lemma_alike_fields_symmetric(f1, f2);
                if let Some(a) = t1 {
                    lemma_alike_symmetric(a, t2.unwrap());
                }
            }
        },
        PatternKind::All(i1) => {
            if let PatternKind::All(i2) = *q.kind {
                lemma_alike_list_symmetric(i1, i2);
            }
        },
        PatternKind::Literal(a) => {
            if let PatternKind::Literal(c) = *q.kind {
                if let crate::literal::Literal::Rational(n1, d1) = a {
                    if let crate::literal::Literal::Rational(n2, d2) = c {
                        assert(n1 * d2 == d2 * n1) by (nonlinear_arith);
                        assert(n2 * d1 == d1 * n2) by (nonlinear_arith);
                    }
                }
            }
        },
        _ => {},
    }
}

proof fn lemma_alike_list_symmetric(l1: PatternList, l2: PatternList)
    requires
        alike_list(l1, l2),
    ensures
        alike_list(l2, l1),
    decreases l1,
{
    if let PatternList::Cons(p, r1) = l1 {
        if let PatternList::Cons(q, r2) = l2 {
            lemma_alike_symmetric(p, q);
            lemma_alike_list_symmetric(*r1, *r2);
        }
    }
}

proof fn lemma_alike_fields_symmetric(f1: FieldList, f2: FieldList)
    requires
        alike_fields(f1, f2),
    ensures
        alike_fields(f2, f1),
    decreases f1,
{
    if let FieldList::Cons(_, p, r1) = f1 {
        if let FieldList::Cons(_, q, r2) = f2 {
            lemma_alike_symmetric(p, q);
            lemma_alike_fields_symmetric(*r1, *r2);
        }
    }
}

/// [`lemma_apply_joined`] for the patterns of two lists.
proof fn lemma_apply_list_joined(b: BindingView, l1: PatternList, l2: PatternList, a1: Option<usize>, a2: Option<usize>, fuel: nat)
    requires
        template_list(l1),
        template_list(l2),
        linear_list(l1),
        linear_list(l2),
        joins_list(b, l1, l2),
        list_depth(l1) + list_depth(l2) < fuel,
    ensures
        apply_list(b, l1, a1, fuel) matches Ok(r1) && apply_list(b, l2, a2, fuel) matches Ok(r2) && alike_list(r1, r2),
    decreases fuel, list_len(l1) + 1,
{
    if let PatternList::Cons(p, rest1) = l1 {
        if let PatternList::Cons(q, rest2) = l2 {
            crate::matching::lemma_template_default_age(p, a1);
            crate::matching::lemma_template_default_age(q, a2);
            let pa = with_default_age(p, a1);
            let qa = with_default_age(q, a2);
            assert(joins(b, pa, qa) == joins(b, p, q));
            assert(pattern_depth(pa) == pattern_depth(p));
            assert(pattern_depth(qa) == pattern_depth(q));
            assert(linear(pa) == linear(p));
            assert(linear(qa) == linear(q));
            lemma_apply_joined(b, pa, qa, fuel);
            lemma_apply_list_joined(b, *rest1, *rest2, a1, a2, fuel);
        }
    }
}

/// [`lemma_apply_joined`] for the fields of two records.
proof fn lemma_apply_fields_joined(b: BindingView, f1: FieldList, f2: FieldList, a1: Option<usize>, a2: Option<usize>, fuel: nat)
    requires
        template_fields(f1),
        template_fields(f2),
        linear_fields(f1),
        linear_fields(f2),
        joins_fields(b, f1, f2),
        fields_depth(f1) + fields_depth(f2) < fuel,
    ensures
        apply_fields(b, f1, a1, fuel) matches Ok(r1) && apply_fields(b, f2, a2, fuel) matches Ok(r2) && alike_fields(r1, r2),
    decreases fuel, fields_len(f1) + 1,
{
    if let FieldList::Cons(k, p, rest1) = f1 {
        if let FieldList::Cons(k2, q, rest2) = f2 {
            crate::matching::lemma_template_default_age(p, a1);
            crate::matching::lemma_template_default_age(q, a2);
            let pa = with_default_age(p, a1);
            let qa = with_default_age(q, a2);
            assert(joins(b, pa, qa) == joins(b, p, q));
            assert(pattern_depth(pa) == pattern_depth(p));
            assert(pattern_depth(qa) == pattern_depth(q));
            assert(linear(pa) == linear(p));
            assert(linear(qa) == linear(q));
            lemma_apply_joined(b, pa, qa, fuel);
            lemma_apply_fields_joined(b, *rest1, *rest2, a1, a2, fuel);
        }
    }
}

/// The variables of two templates together.
pub open spec fn both_vars(p: Pattern, q: Pattern) -> Set<Variable> {
    template_vars(p).union(template_vars(q))
}

/// What joins two templates still joins them in a binding that gives their variables the
/// same entries.
proof fn lemma_joins_kept(b1: BindingView, b2: BindingView, p: Pattern, q: Pattern)
    requires
        joins(b1, p, q),
        forall|u: Variable| #[trigger] both_vars(p, q).contains(u) ==> lookup(b2.entries, u) == lookup(b1.entries, u),
    ensures
        joins(b2, p, q),
    decreases p,
{
    assert(joins_kind(b1, *p.kind, *q.kind));
    if let PatternKind::Variable(x) = *p.kind {
        assert(template_vars(p) == set![x]);
        assert(both_vars(p, q).contains(x));
        if let PatternKind::Variable(y) = *q.kind {
            assert(template_vars(q) == set![y]);
            assert(both_vars(p, q).contains(y));
        } else {
            assert forall|u: Variable| #[trigger] kind_template_vars(*q.kind).contains(u) implies is_unbound_in(u, b2) by {
                assert(template_vars(q).contains(u));
                assert(both_vars(p, q).contains(u));
            }
        }
    } else if let PatternKind::Variable(y) = *q.kind {
        assert(template_vars(q) == set![y]);
        assert(both_vars(p, q).contains(y));
        assert forall|u: Variable| #[trigger] kind_template_vars(*p.kind).contains(u) implies is_unbound_in(u, b2) by {
            assert(template_vars(p).contains(u));
            assert(both_vars(p, q).contains(u));
        }
    } else {
        match *p.kind {
            PatternKind::Struct(_, Some(a)) => {
                let c = (*q.kind)->Struct_1.unwrap();
                assert(template_vars(p) == template_vars(a));
                assert(template_vars(q) == template_vars(c));
                assert forall|u: Variable| #[trigger] both_vars(a, c).contains(u) implies lookup(b2.entries, u) == lookup(b1.entries, u) by {
                    assert(both_vars(p, q).contains(u));
                }
                lemma_joins_kept(b1, b2, a, c);
            },
            PatternKind::List(i1, None) => {
                let i2 = (*q.kind)->List_0;
                assert(template_vars(p) == list_template_vars(i1));
                assert(template_vars(q) == list_template_vars(i2));
                assert forall|u: Variable| #[trigger] list_template_vars(i1).union(list_template_vars(i2)).contains(u)
                    implies lookup(b2.entries, u) == lookup(b1.entries, u) by {
                    assert(both_vars(p, q).contains(u));
                }
                lemma_joins_list_kept(b1, b2, i1, i2);
            },
            PatternKind::Record(f1, None) => {
                let f2 = (*q.kind)->Record_0;
                assert(template_vars(p) == fields_template_vars(f1));
                assert(template_vars(q) == fields_template_vars(f2));
                assert forall|u: Variable| #[trigger] fields_template_vars(f1).union(fields_template_vars(f2)).contains(u)
                    implies lookup(b2.entries, u) == lookup(b1.entries, u) by {
                    assert(both_vars(p, q).contains(u));
                }
                lemma_joins_fields_kept(b1, b2, f1, f2);
            },
            _ => {},
        }
    }
}

proof fn lemma_joins_list_kept(b1: BindingView, b2: BindingView, l1: PatternList, l2: PatternList)
    requires
        joins_list(b1, l1, l2),
        forall|u: Variable| #[trigger] list_template_vars(l1).union(list_template_vars(l2)).contains(u)
            ==> lookup(b2.entries, u) == lookup(b1.entries, u),
    ensures
        joins_list(b2, l1, l2),
    decreases l1,
{
    if let PatternList::Cons(p, r1) = l1 {
        if let PatternList::Cons(q, r2) = l2 {
            assert forall|u: Variable| #[trigger] both_vars(p, q).contains(u) implies lookup(b2.entries, u) == lookup(b1.entries, u) by {
                assert(list_template_vars(l1).union(list_template_vars(l2)).contains(u));
            }
            assert forall|u: Variable| #[trigger] list_template_vars(*r1).union(list_template_vars(*r2)).contains(u)
                implies lookup(b2.entries, u) == lookup(b1.entries, u) by {
                assert(list_template_vars(l1).union(list_template_vars(l2)).contains(u));
            }
            lemma_joins_kept(b1, b2, p, q);
            lemma_joins_list_kept(b1, b2, *r1, *r2);
        }
    }
}

proof fn lemma_joins_fields_kept(b1: BindingView, b2: BindingView, f1: FieldList, f2: FieldList)
    requires
        joins_fields(b1, f1, f2),
        forall|u: Variable| #[trigger] fields_template_vars(f1).union(fields_template_vars(f2)).contains(u)
            ==> lookup(b2.entries, u) == lookup(b1.entries, u),
    ensures
        joins_fields(b2, f1, f2),
    decreases f1,
{
    if let FieldList::Cons(_, p, r1) = f1 {
        if let FieldList::Cons(_, q, r2) = f2 {
            assert forall|u: Variable| #[trigger] both_vars(p, q).contains(u) implies lookup(b2.entries, u) == lookup(b1.entries, u) by {
                assert(fields_template_vars(f1).union(fields_template_vars(f2)).contains(u));
            }
            assert forall|u: Variable| #[trigger] fields_template_vars(*r1).union(fields_template_vars(*r2)).contains(u)
                implies lookup(b2.entries, u) == lookup(b1.entries, u) by {
                assert(fields_template_vars(f1).union(fields_template_vars(f2)).contains(u));
            }
            lemma_joins_kept(b1, b2, p, q);
            lemma_joins_fields_kept(b1, b2, *r1, *r2);
        }
    }
}

/// Unifying two linear templates with no variable in common, whose variables have no
/// value, when it succeeds, gives a binding that joins them and changes no other variable.
pub proof fn lemma_unify_joins(p: Pattern, q: Pattern, b: BindingView, fuel: nat)
    requires
        b.wf(),
        template(p),
        template(q),
        linear(p),
        linear(q),
        template_vars(p).disjoint(template_vars(q)),
        all_unbound(b, template_vars(p)),
        all_unbound(b, template_vars(q)),
    ensures
        crate::unify::unify_inner(p, q, b, fuel) matches Some((_, b2)) ==> {
            &&& b2.wf()
            &&& joins(b2, p, q)
            &&& forall|u: Variable| !(#[trigger] both_vars(p, q).contains(u)) ==> lookup(b2.entries, u) == lookup(b.entries, u)
        },
    decreases fuel, 0nat,
{
    if fuel > 0 {
        let f = (fuel - 1) as nat;
        assert(template_kind(*p.kind));
        assert(template_kind(*q.kind));
        assert(linear_kind(*p.kind));
        assert(linear_kind(*q.kind));
        if let PatternKind::Variable(x) = *p.kind {
            assert(template_vars(p) == set![x]);
            assert(template_vars(p).contains(x));
            assert(is_unbound_in(x, b));
            assert(b.get(x) == Some(self_pattern(x)));
            assert(set_current(x, Some(b.generation())) == x);
            if let PatternKind::Variable(y) = *q.kind {
                assert(template_vars(q) == set![y]);
                assert(template_vars(q).contains(y));
                assert(x != y);
                assert(is_unbound_in(y, b));
                assert(b.get(y) == Some(self_pattern(y)));
                assert(set_current(y, Some(b.generation())) == y);
                let sm = self_pattern(earlier(x, y));
                let b1 = b.set(x, sm);
                let b2 = b1.set(y, sm);
                assert(crate::unify::unify_inner(p, q, b, fuel) == crate::unify::unify_var_var(x, y, b, f));
                assert(crate::unify::unify_var_var(x, y, b, f) == Some((sm, b2)));
                crate::binding::lemma_set_then_lookup(b, x, sm, y);
                crate::binding::lemma_set_then_lookup(b1, y, sm, x);
                assert forall|u: Variable| !(#[trigger] both_vars(p, q).contains(u)) implies lookup(b2.entries, u) == lookup(b.entries, u) by {
                    crate::binding::lemma_set_then_lookup(b, x, sm, u);
                    crate::binding::lemma_set_then_lookup(b1, y, sm, u);
                }
                assert(joins_kind(b2, *p.kind, *q.kind));
            } else {
                assert(!template_vars(q).contains(x));
                assert(crate::unify::unify_inner(p, q, b, fuel) == crate::unify::unify_var_value(x, q, b, f));
                lemma_no_occurs(x, q, b, f);
                let b2 = b.set(x, q);
                assert(crate::unify::unify_var_value(x, q, b, f) == Some((q, b2)));
                crate::binding::lemma_set_then_lookup(b, x, q, x);
                assert forall|u: Variable| !(#[trigger] both_vars(p, q).contains(u)) implies lookup(b2.entries, u) == lookup(b.entries, u) by {
                    crate::binding::lemma_set_then_lookup(b, x, q, u);
                }
                assert(template_vars(q) == kind_template_vars(*q.kind));
                assert forall|u: Variable| #[trigger] kind_template_vars(*q.kind).contains(u) implies is_unbound_in(u, b2) by {
                    crate::binding::lemma_set_then_lookup(b, x, q, u);
                    assert(template_vars(q).contains(u));
                }
                assert(joins_kind(b2, *p.kind, *q.kind));
            }
        } else if let PatternKind::Variable(y) = *q.kind {
            assert(template_vars(q) == set![y]);
            assert(template_vars(q).contains(y));
            assert(!template_vars(p).contains(y));
            assert(is_unbound_in(y, b));
            assert(b.get(y) == Some(self_pattern(y)));
            assert(set_current(y, Some(b.generation())) == y);
            assert(crate::unify::unify_inner(p, q, b, fuel) == crate::unify::unify_inner(q, p, b, f));
            if f > 0 {
                let g = (f - 1) as nat;
                assert(crate::unify::unify_inner(q, p, b, f) == crate::unify::unify_var_value(y, p, b, g));
                lemma_no_occurs(y, p, b, g);
                let b2 = b.set(y, p);
                assert(crate::unify::unify_var_value(y, p, b, g) == Some((p, b2)));
                crate::binding::lemma_set_then_lookup(b, y, p, y);
                assert forall|u: Variable| !(#[trigger] both_vars(p, q).contains(u)) implies lookup(b2.entries, u) == lookup(b.entries, u) by {
                    crate::binding::lemma_set_then_lookup(b, y, p, u);
                }
                assert(template_vars(p) == kind_template_vars(*p.kind));
                assert forall|u: Variable| #[trigger] kind_template_vars(*p.kind).contains(u) implies is_unbound_in(u, b2) by {
                    crate::binding::lemma_set_then_lookup(b, y, p, u);
                    assert(template_vars(p).contains(u));
                }
                assert(joins_kind(b2, *p.kind, *q.kind));
            }
        } else {
            match *p.kind {
                PatternKind::Struct(n1, c1) => {
                    if let PatternKind::Struct(n2, c2) = *q.kind {
                        assert(crate::unify::unify_inner(p, q, b, fuel)
                            == crate::unify::unify_structs(n1, c1, p.age, n2, c2, q.age, p, b, f));
                        if n1 == n2 {
                            if let Some(a) = c1 {
                                if let Some(c) = c2 {
                                    let aa = with_default_age(a, p.age);
                                    let ca = with_default_age(c, q.age);
                                    crate::matching::lemma_template_default_age(a, p.age);
                                    crate::matching::lemma_template_default_age(c, q.age);
                                    assert(template(aa) && template(ca));
                                    assert(linear(aa) == linear(a));
                                    assert(linear(ca) == linear(c));
                                    assert(template_vars(p) == template_vars(a));
                                    assert(template_vars(q) == template_vars(c));
                                    assert(template_vars(aa) == template_vars(a));
                                    assert(template_vars(ca) == template_vars(c));
                                    lemma_unify_joins(aa, ca, b, f);
                                    if let Some((_, b2)) = crate::unify::unify_inner(aa, ca, b, f) {
                                        assert(joins(b2, aa, ca) == joins_kind(b2, *a.kind, *c.kind));
                                        assert(joins(b2, a, c));
                                        assert(joins_kind(b2, *p.kind, *q.kind));
                                        assert(both_vars(aa, ca) == both_vars(p, q));
                                    }
                                }
                            } else if c2 is None {
                                assert(joins_kind(b, *p.kind, *q.kind));
                            }
                        }
                    }
                },
                PatternKind::List(i1, _) => {
                    if let PatternKind::List(i2, t2) = *q.kind {
                        if t2 is None {
                            assert(crate::unify::unify_inner(p, q, b, fuel)
                                == crate::unify::unify_lists(i1, None, p.age, i2, None, q.age, b, f));
                            assert(template_vars(p) == list_template_vars(i1));
                            assert(template_vars(q) == list_template_vars(i2));
                            if f > 0 {
                                let sub = (f - 1) as nat;
                                lemma_unify_sequence_joins(i1, i2, p.age, q.age, b, sub);
                                if let Some((its, b2)) = crate::unify::unify_sequence(
                                    crate::pattern::list_seq(crate::unify::list_aged(i1, p.age)),
                                    crate::pattern::list_seq(crate::unify::list_aged(i2, q.age)), b, sub) {
                                    assert(crate::unify::unify_lists(i1, None, p.age, i2, None, q.age, b, f)
                                        == Some((crate::pattern::list_pattern(crate::unify::list_of_seq(its), None), b2)));
                                    assert(joins_kind(b2, *p.kind, *q.kind));
                                }
                            }
                        }
                    }
                },
                PatternKind::Record(f1, _) => {
                    if let PatternKind::Record(f2, t2) = *q.kind {
                        if t2 is None {
                            assert(crate::unify::unify_inner(p, q, b, fuel)
                                == crate::unify::unify_records(f1, None, p.age, f2, None, q.age, b, f));
                            assert(template_vars(p) == fields_template_vars(f1));
                            assert(template_vars(q) == fields_template_vars(f2));
                            if f > 0 {
                                let sub = (f - 1) as nat;
                                let l = crate::unify::fields_aged(f1, p.age);
                                let r = crate::unify::fields_aged(f2, q.age);
                                lemma_unify_fields_joins(f1, f2, p.age, q.age, FieldList::Nil, b, sub);
                                if fields_len(l) == fields_len(r) {
                                    if let Some((fs, b2)) = crate::unify::unify_fields(l, r, FieldList::Nil, b, sub) {
                                        assert(crate::unify::unify_records(f1, None, p.age, f2, None, q.age, b, f)
                                            == Some((crate::pattern::record_pattern(fs, None), b2)));
                                        assert(joins_kind(b2, *p.kind, *q.kind));
                                    }
                                }
                            }
                        }
                    }
                },
                PatternKind::Literal(..) => {
                    assert(crate::unify::unify_inner(p, q, b, fuel) matches Some((_, b2)) ==> b2 == b);
                },
                PatternKind::Any(..) => {
                    assert(crate::unify::unify_inner(p, q, b, fuel) matches Some((_, b2)) ==> b2 == b);
                },
                _ => {},
            }
        }
    }
}

/// [`lemma_unify_joins`] for the items of two complete lists.
proof fn lemma_unify_sequence_joins(l1: PatternList, l2: PatternList, a1: Option<usize>, a2: Option<usize>, b: BindingView, fuel: nat)
    requires
        b.wf(),
        template_list(l1),
        template_list(l2),
        linear_list(l1),
        linear_list(l2),
        list_template_vars(l1).disjoint(list_template_vars(l2)),
        all_unbound(b, list_template_vars(l1)),
        all_unbound(b, list_template_vars(l2)),
    ensures
        crate::unify::unify_sequence(
            crate::pattern::list_seq(crate::unify::list_aged(l1, a1)),
            crate::pattern::list_seq(crate::unify::list_aged(l2, a2)), b, fuel) matches Some((_, b2)) ==> {
            &&& b2.wf()
            &&& joins_list(b2, l1, l2)
            &&& forall|u: Variable| !(#[trigger] list_template_vars(l1).union(list_template_vars(l2)).contains(u))
                ==> lookup(b2.entries, u) == lookup(b.entries, u)
        },
    decreases fuel, list_len(l1) + 1,
{
    let s1 = crate::pattern::list_seq(crate::unify::list_aged(l1, a1));
    let s2 = crate::pattern::list_seq(crate::unify::list_aged(l2, a2));
    crate::unify_laws::lemma_list_aged_len(l1, a1);
    crate::unify_laws::lemma_list_aged_len(l2, a2);
    match l1 {
        PatternList::Nil => {
            if let PatternList::Cons(_, _) = l2 {
                assert(s1.len() != s2.len());
            }
        },
        PatternList::Cons(p, r1) => {
            if let PatternList::Cons(q, r2) = l2 {
                let pa = with_default_age(p, a1);
                let qa = with_default_age(q, a2);
                assert(s1[0] == pa);
                assert(s2[0] == qa);
                assert(s1.drop_first() =~= crate::pattern::list_seq(crate::unify::list_aged(*r1, a1)));
                assert(s2.drop_first() =~= crate::pattern::list_seq(crate::unify::list_aged(*r2, a2)));
                crate::matching::lemma_template_default_age(p, a1);
                crate::matching::lemma_template_default_age(q, a2);
                assert(template(p) && template(q));
                assert(template(pa) && template(qa));
                assert(linear(pa) == linear(p));
                assert(linear(qa) == linear(q));
                assert(template_vars(pa) == template_vars(p));
                assert(template_vars(qa) == template_vars(q));
                assert forall|u: Variable| #[trigger] template_vars(pa).contains(u) implies is_unbound_in(u, b) by {
                    assert(list_template_vars(l1).contains(u));
                }
                assert forall|u: Variable| #[trigger] template_vars(qa).contains(u) implies is_unbound_in(u, b) by {
                    assert(list_template_vars(l2).contains(u));
                }
                assert forall|u: Variable| #[trigger] template_vars(pa).contains(u) implies !template_vars(qa).contains(u) by {
                    assert(list_template_vars(l1).contains(u));
                    if template_vars(qa).contains(u) {
                        assert(list_template_vars(l2).contains(u));
                    }
                }
                lemma_unify_joins(pa, qa, b, fuel);
                if let Some((_, b1)) = crate::unify::unify_inner(pa, qa, b, fuel) {
                    assert forall|u: Variable| #[trigger] list_template_vars(*r1).contains(u) implies is_unbound_in(u, b1) by {
                        assert(list_template_vars(l1).contains(u));
                        assert(!template_vars(p).contains(u));
                        assert(!list_template_vars(l2).contains(u));
                        assert(!template_vars(q).contains(u));
                        assert(!both_vars(pa, qa).contains(u));
                    }
                    assert forall|u: Variable| #[trigger] list_template_vars(*r2).contains(u) implies is_unbound_in(u, b1) by {
                        assert(list_template_vars(l2).contains(u));
                        assert(!template_vars(q).contains(u));
                        assert(!list_template_vars(l1).contains(u));
                        assert(!template_vars(p).contains(u));
                        assert(!both_vars(pa, qa).contains(u));
                    }
                    assert forall|u: Variable| #[trigger] list_template_vars(*r1).contains(u) implies !list_template_vars(*r2).contains(u) by {
                        assert(list_template_vars(l1).contains(u));
                        if list_template_vars(*r2).contains(u) {
                            assert(list_template_vars(l2).contains(u));
                        }
                    }
                    lemma_unify_sequence_joins(*r1, *r2, a1, a2, b1, fuel);
                    if let Some((_, b2)) = crate::unify::unify_sequence(s1.drop_first(), s2.drop_first(), b1, fuel) {
                        assert(joins(b1, pa, qa) == joins_kind(b1, *p.kind, *q.kind));
                        assert(joins(b1, p, q));
                        assert forall|u: Variable| #[trigger] both_vars(p, q).contains(u) implies lookup(b2.entries, u) == lookup(b1.entries, u) by {
                            if template_vars(p).contains(u) {
                                assert(list_template_vars(l1).contains(u));
                                assert(!list_template_vars(*r1).contains(u));
                                assert(!list_template_vars(l2).contains(u));
                                assert(!list_template_vars(*r2).contains(u));
                            } else {
                                assert(template_vars(q).contains(u));
                                assert(list_template_vars(l2).contains(u));
                                assert(!list_template_vars(*r2).contains(u));
                                assert(!list_template_vars(l1).contains(u));
                                assert(!list_template_vars(*r1).contains(u));
                            }
                            assert(!list_template_vars(*r1).union(list_template_vars(*r2)).contains(u));
                        }
                        lemma_joins_kept(b1, b2, p, q);
                        assert forall|u: Variable| !(#[trigger] list_template_vars(l1).union(list_template_vars(l2)).contains(u))
                            implies lookup(b2.entries, u) == lookup(b.entries, u) by {
                            assert(!both_vars(pa, qa).contains(u));
                            assert(!list_template_vars(*r1).union(list_template_vars(*r2)).contains(u));
                        }
                    }
                }
            }
        },
    }
}

/// [`lemma_unify_joins`] for the fields of two complete records.
proof fn lemma_unify_fields_joins(f1: FieldList, f2: FieldList, a1: Option<usize>, a2: Option<usize>, acc: FieldList, b: BindingView, fuel: nat)
    requires
        b.wf(),
        template_fields(f1),
        template_fields(f2),
        linear_fields(f1),
        linear_fields(f2),
        fields_template_vars(f1).disjoint(fields_template_vars(f2)),
        all_unbound(b, fields_template_vars(f1)),
        all_unbound(b, fields_template_vars(f2)),
    ensures
        crate::unify::unify_fields(crate::unify::fields_aged(f1, a1), crate::unify::fields_aged(f2, a2), acc, b, fuel) matches Some((_, b2)) ==> {
            &&& b2.wf()
            &&& joins_fields(b2, f1, f2)
            &&& forall|u: Variable| !(#[trigger] fields_template_vars(f1).union(fields_template_vars(f2)).contains(u))
                ==> lookup(b2.entries, u) == lookup(b.entries, u)
        },
    decreases fuel, fields_len(f1) + 1,
{
    if let FieldList::Cons(k, p, r1) = f1 {
        if let FieldList::Cons(k2, q, r2) = f2 {
            if k == k2 {
                let pa = with_default_age(p, a1);
                let qa = with_default_age(q, a2);
                crate::matching::lemma_template_default_age(p, a1);
                crate::matching::lemma_template_default_age(q, a2);
                assert(template(p) && template(q));
                assert(template(pa) && template(qa));
                assert(linear(pa) == linear(p));
                assert(linear(qa) == linear(q));
                assert(template_vars(pa) == template_vars(p));
                assert(template_vars(qa) == template_vars(q));
                assert forall|u: Variable| #[trigger] template_vars(pa).contains(u) implies is_unbound_in(u, b) by {
                    assert(fields_template_vars(f1).contains(u));
                }
                assert forall|u: Variable| #[trigger] template_vars(qa).contains(u) implies is_unbound_in(u, b) by {
                    assert(fields_template_vars(f2).contains(u));
                }
                assert forall|u: Variable| #[trigger] template_vars(pa).contains(u) implies !template_vars(qa).contains(u) by {
                    assert(fields_template_vars(f1).contains(u));
                    if template_vars(qa).contains(u) {
                        assert(fields_template_vars(f2).contains(u));
                    }
                }
                lemma_unify_joins(pa, qa, b, fuel);
                if let Some((x, b1)) = crate::unify::unify_inner(pa, qa, b, fuel) {
                    assert forall|u: Variable| #[trigger] fields_template_vars(*r1).contains(u) implies is_unbound_in(u, b1) by {
                        assert(fields_template_vars(f1).contains(u));
                        assert(!template_vars(p).contains(u));
                        assert(!fields_template_vars(f2).contains(u));
                        assert(!template_vars(q).contains(u));
                        assert(!both_vars(pa, qa).contains(u));
                    }
                    assert forall|u: Variable| #[trigger] fields_template_vars(*r2).contains(u) implies is_unbound_in(u, b1) by {
                        assert(fields_template_vars(f2).contains(u));
                        assert(!template_vars(q).contains(u));
                        assert(!fields_template_vars(f1).contains(u));
                        assert(!template_vars(p).contains(u));
                        assert(!both_vars(pa, qa).contains(u));
                    }
                    assert forall|u: Variable| #[trigger] fields_template_vars(*r1).contains(u) implies !fields_template_vars(*r2).contains(u) by {
                        assert(fields_template_vars(f1).contains(u));
                        if fields_template_vars(*r2).contains(u) {
                            assert(fields_template_vars(f2).contains(u));
                        }
                    }
                    let acc2 = crate::pattern::fields_insert(acc, k, x);
                    lemma_unify_fields_joins(*r1, *r2, a1, a2, acc2, b1, fuel);
                    if let Some((_, b2)) = crate::unify::unify_fields(crate::unify::fields_aged(*r1, a1), crate::unify::fields_aged(*r2, a2), acc2, b1, fuel) {
                        assert(joins(b1, pa, qa) == joins_kind(b1, *p.kind, *q.kind));
                        assert(joins(b1, p, q));
                        assert forall|u: Variable| #[trigger] both_vars(p, q).contains(u) implies lookup(b2.entries, u) == lookup(b1.entries, u) by {
                            if template_vars(p).contains(u) {
                                assert(fields_template_vars(f1).contains(u));
                                assert(!fields_template_vars(*r1).contains(u));
                                assert(!fields_template_vars(f2).contains(u));
                                assert(!fields_template_vars(*r2).contains(u));
                            } else {
                                assert(template_vars(q).contains(u));
                                assert(fields_template_vars(f2).contains(u));
                                assert(!fields_template_vars(*r2).contains(u));
                                assert(!fields_template_vars(f1).contains(u));
                                assert(!fields_template_vars(*r1).contains(u));
                            }
                            assert(!fields_template_vars(*r1).union(fields_template_vars(*r2)).contains(u));
                        }
                        lemma_joins_kept(b1, b2, p, q);
                        assert forall|u: Variable| !(#[trigger] fields_template_vars(f1).union(fields_template_vars(f2)).contains(u))
                            implies lookup(b2.entries, u) == lookup(b.entries, u) by {
                            assert(!both_vars(pa, qa).contains(u));
                            assert(!fields_template_vars(*r1).union(fields_template_vars(*r2)).contains(u));
                        }
                    }
                }
            }
        }
    }
}

/// Unification makes the two sides equal: unifying two templates with no variable in
/// common and none twice, whose variables have no value, when it succeeds, gives a binding
/// under which both apply to the same term, literals compared by value (given more steps
/// than the two nest together); no other variable changes.
pub proof fn lemma_templates_apply_alike(p: Pattern, q: Pattern, b: BindingView, fuel: nat)
    requires
        b.wf(),
        template(p),
        template(q),
        linear(p),
        linear(q),
        template_vars(p).disjoint(template_vars(q)),
        all_unbound(b, template_vars(p)),
        all_unbound(b, template_vars(q)),
        pattern_depth(p) + pattern_depth(q) < fuel,
    ensures
        crate::unify::unify_patterns_spec(p, q, b, crate::unify_laws::full_fuel()) matches Some(b2) ==> {
            &&& b2.wf()
            &&& apply_pattern(b2, p, fuel) matches Ok(r1) && apply_pattern(b2, q, fuel) matches Ok(r2) && alike(r1, r2)
            &&& forall|u: Variable| !(#[trigger] both_vars(p, q).contains(u)) ==> lookup(b2.entries, u) == lookup(b.entries, u)
        },
{
    let g = Some(b.generation());
    let pa = with_default_age(p, g);
    let qa = with_default_age(q, g);
    crate::matching::lemma_template_default_age(p, g);
    crate::matching::lemma_template_default_age(q, g);
    assert(template(pa) && template(qa));
    assert(linear(pa) == linear(p));
    assert(linear(qa) == linear(q));
    assert(template_vars(pa) == template_vars(p));
    assert(template_vars(qa) == template_vars(q));
    lemma_unify_joins(pa, qa, b, crate::unify_laws::full_fuel());
    if let Some((_, b2)) = crate::unify::unify_inner(pa, qa, b, crate::unify_laws::full_fuel()) {
        assert(joins(b2, pa, qa) == joins_kind(b2, *p.kind, *q.kind));
        assert(joins(b2, p, q));
        assert(both_vars(pa, qa) == both_vars(p, q));
        lemma_apply_joined(b2, p, q, fuel);
    }
}
} // verus!

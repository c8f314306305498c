//! Unifying a template with a complete value: a pattern whose variables each have no value
//! or a complete value, unified with a value, gives each variable without a value the part
//! of the value at its place and keeps the values of the others; afterwards both sides
//! apply to the value.
use crate::apply::{
    apply_pattern, apply_list, apply_fields, same_term, same_kind, same_option, same_list, same_fields,
    pattern_depth, kind_depth, list_depth, fields_depth, option_depth, max_nat, lemma_apply_applied,
};
use crate::binding::{BindingView, lookup};
use crate::literal::literal_eq;
use crate::pattern::{Pattern, PatternKind, PatternList, FieldList, with_default_age, make_record, pattern_of, fields_len, list_len};
use crate::unify_laws::{
    ground_term, ground_kind, ground_list, ground_fields, equal_values, equal_value_kinds, equal_value_lists,
    equal_value_fields, lemma_ground_term,
};
use crate::variable::{Variable, set_current};
use vstd::prelude::*;

verus! {

/// Whether `p` is a template: made of literals, host values, structures, lists (complete,
/// or with a variable for their rest) and complete records, and of variables that carry
/// their generation (a variable may stand in more than one place).
pub open spec fn template(p: Pattern) -> bool
    decreases p,
{
    template_kind(*p.kind)
}

/// [`template`] for a shape.
pub open spec fn template_kind(k: PatternKind) -> bool
    decreases k,
{
    match k {
        PatternKind::Variable(v) => v.generation is Some,
        PatternKind::Literal(..) => true,
        PatternKind::Any(..) => true,
        PatternKind::Struct(_, None) => true,
        PatternKind::Struct(_, Some(c)) => template(c),
        PatternKind::List(items, None) => template_list(items),
        PatternKind::List(items, Some(t)) => template_list(items) && *t.kind is Variable && template(t),
        PatternKind::Record(fields, None) => template_fields(fields),
        _ => false,
    }
}

/// [`template`] for the patterns of a list.
pub open spec fn template_list(l: PatternList) -> bool
    decreases l,
{
    match l {
        PatternList::Nil => true,
        PatternList::Cons(p, rest) => template(p) && template_list(*rest),
    }
}

/// [`template`] for the fields of a record.
pub open spec fn template_fields(f: FieldList) -> bool
    decreases f,
{
    match f {
        FieldList::Nil => true,
        FieldList::Cons(_, p, rest) => template(p) && template_fields(*rest),
    }
}

/// The variables of a template.
pub open spec fn template_vars(p: Pattern) -> Set<Variable>
    decreases p,
{
    kind_template_vars(*p.kind)
}

/// [`template_vars`] for a shape.
pub open spec fn kind_template_vars(k: PatternKind) -> Set<Variable>
    decreases k,
{
    match k {
        PatternKind::Variable(v) => set![v],
        PatternKind::Struct(_, Some(c)) => template_vars(c),
        PatternKind::List(items, None) => list_template_vars(items),
        PatternKind::List(items, Some(t)) => list_template_vars(items).union(template_vars(t)),
        PatternKind::Record(fields, _) => fields_template_vars(fields),
        _ => Set::empty(),
    }
}

/// [`template_vars`] for the patterns of a list.
pub open spec fn list_template_vars(l: PatternList) -> Set<Variable>
    decreases l,
{
    match l {
        PatternList::Nil => Set::empty(),
        PatternList::Cons(p, rest) => template_vars(p).union(list_template_vars(*rest)),
    }
}

/// [`template_vars`] for the fields of a record.
pub open spec fn fields_template_vars(f: FieldList) -> Set<Variable>
    decreases f,
{
    match f {
        FieldList::Nil => Set::empty(),
        FieldList::Cons(_, p, rest) => template_vars(p).union(fields_template_vars(*rest)),
    }
}

/// Whether `b` gives each variable of the template `p` a complete value equal to the part of
/// the value `q` at its place, and each literal, host value and name of `p` is that of `q`.
pub open spec fn covers(b: BindingView, p: Pattern, q: Pattern) -> bool
    decreases p,
{
    covers_kind(b, *p.kind, *q.kind)
}

/// [`covers`] for shapes.
pub open spec fn covers_kind(b: BindingView, k1: PatternKind, k2: PatternKind) -> bool
    decreases k1,
{
    match k1 {
        PatternKind::Variable(v) => lookup(b.entries, v) matches Some(e) && ground_term(e) && equal_value_kinds(*e.kind, k2),
        PatternKind::Literal(a) => match k2 {
            PatternKind::Literal(c) => literal_eq(a, c),
            _ => false,
        },
        PatternKind::Any(x) => match k2 {
            PatternKind::Any(y) => x == y,
            _ => false,
        },
        PatternKind::Struct(n1, c1) => match k2 {
            PatternKind::Struct(n2, c2) => n1 == n2 && match c1 {
                None => c2 is None,
                Some(a) => match c2 {
                    Some(c) => covers(b, a, c),
                    None => false,
                },
            },
            _ => false,
        },
        PatternKind::List(i1, None) => match k2 {
            PatternKind::List(i2, None) => covers_list(b, i1, i2),
            _ => false,
        },
        PatternKind::List(i1, Some(t)) => match k2 {
            PatternKind::List(i2, None) => covers_prefix(b, i1, i2) matches Some(rest)
                && covers(b, t, pattern_of(PatternKind::List(rest, None))),
            _ => false,
        },
        PatternKind::Record(f1, None) => match k2 {
            PatternKind::Record(f2, None) => covers_fields(b, f1, f2),
            _ => false,
        },
        _ => false,
    }
}

/// [`covers`] for lists, item by item.
pub open spec fn covers_list(b: BindingView, l1: PatternList, l2: PatternList) -> bool
    decreases l1,
{
    match l1 {
        PatternList::Nil => l2 is Nil,
        PatternList::Cons(p, r1) => match l2 {
            PatternList::Cons(q, r2) => covers(b, p, q) && covers_list(b, *r1, *r2),
            PatternList::Nil => false,
        },
    }
}

/// [`covers`] for the items of a list and the first as many items of another: the items of
/// the second that are left over, or `None` when they do not cover.
pub open spec fn covers_prefix(b: BindingView, l1: PatternList, l2: PatternList) -> Option<PatternList>
    decreases l1,
{
    match l1 {
        PatternList::Nil => Some(l2),
        PatternList::Cons(p, r1) => match l2 {
            PatternList::Cons(q, r2) => if covers(b, p, q) {
                covers_prefix(b, *r1, *r2)
            } else {
                None
            },
            PatternList::Nil => None,
        },
    }
}

/// [`covers`] for fields, name by name.
pub open spec fn covers_fields(b: BindingView, f1: FieldList, f2: FieldList) -> bool
    decreases f1,
{
    match f1 {
        FieldList::Nil => f2 is Nil,
        FieldList::Cons(k1, p, r1) => match f2 {
            FieldList::Cons(k2, q, r2) => k1 == k2 && covers(b, p, q) && covers_fields(b, *r1, *r2),
            FieldList::Nil => false,
        },
    }
}

/// Whether `u` has in `b` a complete value that nests no deeper than `d`.
pub open spec fn valued(b: BindingView, u: Variable, d: nat) -> bool {
    lookup(b.entries, u) matches Some(e) && ground_term(e) && pattern_depth(e) <= d
}

/// Whether `u` has in `b` either no value or a complete value that nests no deeper than `d`.
pub open spec fn settled(b: BindingView, u: Variable, d: nat) -> bool {
    crate::unify_laws::is_unbound_in(u, b) || valued(b, u, d)
}

/// Whether each variable of the template `p` is [`settled`] in `b`.
pub open spec fn resolved(b: BindingView, p: Pattern, d: nat) -> bool {
    forall|u: Variable| #[trigger] template_vars(p).contains(u) ==> settled(b, u, d)
}

/// Whether `b2` differs from `b` only in giving variables without a value a complete value
/// that nests no deeper than `d`: every variable that had a value keeps it.
pub open spec fn only_fills(b: BindingView, b2: BindingView, d: nat) -> bool {
    forall|u: Variable| #[trigger] lookup(b2.entries, u) != lookup(b.entries, u)
        ==> crate::unify_laws::is_unbound_in(u, b) && valued(b2, u, d)
}

proof fn lemma_only_fills_trans(b: BindingView, b1: BindingView, b2: BindingView, d: nat)
    requires
        only_fills(b, b1, d),
        only_fills(b1, b2, d),
    ensures
        only_fills(b, b2, d),
{
    assert forall|u: Variable| #[trigger] lookup(b2.entries, u) != lookup(b.entries, u)
        implies crate::unify_laws::is_unbound_in(u, b) && valued(b2, u, d) by {
        if lookup(b1.entries, u) != lookup(b.entries, u) {
            assert(valued(b1, u, d));
            if lookup(b2.entries, u) != lookup(b1.entries, u) {
                assert(crate::unify_laws::is_unbound_in(u, b1));
                assert(ground_term(crate::binding::self_pattern(u)) == false);
            }
        }
    }
}

proof fn lemma_settled_after(b: BindingView, b1: BindingView, u: Variable, d: nat)
    requires
        settled(b, u, d),
        only_fills(b, b1, d),
    ensures
        settled(b1, u, d),
{
    if lookup(b1.entries, u) != lookup(b.entries, u) {
        assert(valued(b1, u, d));
    }
}

/// Complete values are equal to themselves.
proof fn lemma_equal_values_refl(q: Pattern)
    requires
        ground_term(q),
    ensures
        equal_values(q, q),
    decreases q,
{
    assert(ground_kind(*q.kind));
    match *q.kind {
        PatternKind::Struct(_, Some(c)) => lemma_equal_values_refl(c),
        PatternKind::List(items, _) => lemma_equal_value_lists_refl(items),
        PatternKind::Record(fields, _) => lemma_equal_value_fields_refl(fields),
        PatternKind::Literal(l) => {
            if let crate::literal::Literal::Rational(n, d) = l {
                assert(n * d == n * d);
            }
        },
        _ => {},
    }
}

proof fn lemma_equal_value_lists_refl(l: PatternList)
    requires
        ground_list(l),
    ensures
        equal_value_lists(l, l),
    decreases l,
{
    if let PatternList::Cons(p, rest) = l {
        lemma_equal_values_refl(p);
        lemma_equal_value_lists_refl(*rest);
    }
}

proof fn lemma_equal_value_fields_refl(f: FieldList)
    requires
        ground_fields(f),
    ensures
        equal_value_fields(f, f),
    decreases f,
{
    if let FieldList::Cons(_, p, rest) = f {
        lemma_equal_values_refl(p);
        lemma_equal_value_fields_refl(*rest);
    }
}

/// A term of the same shape as a complete value equal to `q` is equal to `q`.
proof fn lemma_same_term_then_equal(r: Pattern, e: Pattern, q: Pattern)
    requires
        ground_term(e),
        same_term(r, e),
        equal_values(e, q),
    ensures
        equal_values(r, q),
    decreases e,
{
    assert(ground_kind(*e.kind));
    assert(same_kind(*r.kind, *e.kind));
    match *e.kind {
        PatternKind::Struct(_, Some(c)) => {
            if let PatternKind::Struct(_, Some(a)) = *r.kind {
                if let PatternKind::Struct(_, Some(x)) = *q.kind {
                    lemma_same_term_then_equal(a, c, x);
                }
            }
        },
        PatternKind::List(ie, _) => {
            if let PatternKind::List(ir, _) = *r.kind {
                if let PatternKind::List(iq, _) = *q.kind {
                    lemma_same_list_then_equal(ir, ie, iq);
                }
            }
        },
        PatternKind::Record(fe, _) => {
            if let PatternKind::Record(fr, _) = *r.kind {
                if let PatternKind::Record(fq, _) = *q.kind {
                    lemma_same_fields_then_equal(fr, fe, fq);
                }
            }
        },
        _ => {},
    }
}

proof fn lemma_same_list_then_equal(lr: PatternList, le: PatternList, lq: PatternList)
    requires
        ground_list(le),
        same_list(lr, le),
        equal_value_lists(le, lq),
    ensures
        equal_value_lists(lr, lq),
    decreases le,
{
    if let PatternList::Cons(e, re) = le {
        if let PatternList::Cons(r, rr) = lr {
            if let PatternList::Cons(q, rq) = lq {
                lemma_same_term_then_equal(r, e, q);
                lemma_same_list_then_equal(*rr, *re, *rq);
            }
        }
    }
}

proof fn lemma_same_fields_then_equal(fr: FieldList, fe: FieldList, fq: FieldList)
    requires
        ground_fields(fe),
        same_fields(fr, fe),
        equal_value_fields(fe, fq),
    ensures
        equal_value_fields(fr, fq),
    decreases fe,
{
    if let FieldList::Cons(_, e, re) = fe {
        if let FieldList::Cons(_, r, rr) = fr {
            if let FieldList::Cons(_, q, rq) = fq {
                lemma_same_term_then_equal(r, e, q);
                lemma_same_fields_then_equal(*rr, *re, *rq);
            }
        }
    }
}

/// Giving a template a default age keeps its shape.
pub proof fn lemma_template_default_age(p: Pattern, age: Option<usize>)
    requires
        template(p),
    ensures
        *with_default_age(p, age).kind == *p.kind,
{
    assert(template_kind(*p.kind));
}

/// Applying a binding that covers a template with a value gives that value (given more
/// steps than the template nests together with the values of its variables).
pub proof fn lemma_apply_covered(b: BindingView, p: Pattern, q: Pattern, d: nat, fuel: nat)
    requires
        template(p),
        covers(b, p, q),
        resolved(b, p, d),
        pattern_depth(p) + d < fuel,
    ensures
        apply_pattern(b, p, fuel) matches Ok(r) && equal_values(r, q),
    decreases fuel, 0nat,
{
    let f = (fuel - 1) as nat;
    let age = match p.age {
        Some(a) => Some(a),
        None => Some(b.generation()),
    };
    assert(template_kind(*p.kind));
    assert(covers_kind(b, *p.kind, *q.kind));
    match *p.kind {
        PatternKind::Variable(v) => {
            assert(set_current(v, age) == v);
            assert(template_vars(p).contains(v));
            let e = lookup(b.entries, v).unwrap();
            assert(ground_term(e));
            assert(ground_term(crate::binding::self_pattern(v)) == false);
            assert(valued(b, v, d));
            assert(ground_kind(*e.kind));
            assert(*e.kind != PatternKind::Variable(v));
            let ea = with_default_age(e, age);
            crate::unify_laws::lemma_ground_default_age(e, age);
            lemma_ground_term(ea, b);
            lemma_apply_applied(b, ea, f);
            let r = apply_pattern(b, ea, f)->Ok_0;
            assert(apply_pattern(b, p, fuel) == Ok::<Pattern, crate::apply::BindingError>(r));
            assert(same_term(r, ea) == same_kind(*r.kind, *ea.kind));
            assert(same_term(r, e) == same_kind(*r.kind, *e.kind));
            assert(equal_values(e, q) == equal_value_kinds(*e.kind, *q.kind));
            lemma_same_term_then_equal(r, e, q);
        },
        PatternKind::Struct(n, c1) => {
            let c2 = (*q.kind)->Struct_1;
            if let Some(a) = c1 {
                let c = c2.unwrap();
                lemma_template_default_age(a, age);
                let aa = with_default_age(a, age);
                assert(covers(b, aa, c) == covers(b, a, c));
                assert(pattern_depth(aa) == pattern_depth(a));
                assert(pattern_depth(p) == 1 + pattern_depth(a));
                assert(template_vars(p) == template_vars(a));
                assert(template_vars(aa) == template_vars(a));
                lemma_apply_covered(b, aa, c, d, f);
            }
        },
        PatternKind::List(items, None) => {
            let qitems = (*q.kind)->List_0;
            assert(template_vars(p) == list_template_vars(items));
            lemma_apply_list_covered(b, items, qitems, age, d, f);
        },
        PatternKind::List(items, Some(t)) => {
            let qitems = (*q.kind)->List_0;
            let rest = covers_prefix(b, items, qitems)->Some_0;
            let restq = pattern_of(PatternKind::List(rest, None));
            assert(template_vars(p) == list_template_vars(items).union(template_vars(t)));
            assert forall|u: Variable| #[trigger] list_template_vars(items).contains(u) implies settled(b, u, d) by {
                assert(template_vars(p).contains(u));
            }
            assert forall|u: Variable| #[trigger] template_vars(t).contains(u) implies settled(b, u, d) by {
                assert(template_vars(p).contains(u));
            }
            assert(option_depth(Some(t)) == pattern_depth(t));
            assert(template_kind(*t.kind));
            assert(pattern_depth(t) == 1);
            lemma_apply_prefix_covered(b, items, qitems, age, d, f);
            lemma_template_default_age(t, age);
            let ta = with_default_age(t, age);
            assert(covers(b, ta, restq) == covers(b, t, restq));
            assert(template_vars(ta) == template_vars(t));
            assert(pattern_depth(ta) == 1);
            lemma_apply_covered(b, ta, restq, d, f);
            let r2 = apply_pattern(b, ta, f)->Ok_0;
            assert(equal_values(r2, restq) == equal_value_kinds(*r2.kind, PatternKind::List(rest, None)));
            if let PatternKind::List(h2, t3) = *r2.kind {
                assert(t3 is None);
                let items2 = apply_list(b, items, age, f)->Ok_0;
                assert(equal_value_lists(h2, rest));
                assert(equal_value_lists(crate::pattern::list_append(items2, h2), qitems));
            }
        },
        PatternKind::Record(fields, _) => {
            let qfields = (*q.kind)->Record_0;
            assert(template_vars(p) == fields_template_vars(fields));
            lemma_apply_fields_covered(b, fields, qfields, age, d, f);
            if let Ok(fields2) = apply_fields(b, fields, age, f) {
                assert(make_record(fields2, None) == PatternKind::Record(fields2, None));
            }
        },
        _ => {},
    }
}

/// [`lemma_apply_covered`] for the patterns of a list.
proof fn lemma_apply_list_covered(b: BindingView, l: PatternList, ql: PatternList, age: Option<usize>, d: nat, fuel: nat)
    requires
        template_list(l),
        covers_list(b, l, ql),
        forall|u: Variable| #[trigger] list_template_vars(l).contains(u) ==> settled(b, u, d),
        list_depth(l) + d < fuel,
    ensures
        apply_list(b, l, age, fuel) matches Ok(r) && equal_value_lists(r, ql),
    decreases fuel, list_len(l) + 1,
{
    if let PatternList::Cons(p, rest) = l {
        if let PatternList::Cons(q, qrest) = ql {
            lemma_template_default_age(p, age);
            let pa = with_default_age(p, age);
            assert(covers(b, pa, q) == covers(b, p, q));
            assert(pattern_depth(pa) == pattern_depth(p));
            assert(template_vars(pa) == template_vars(p));
            assert forall|u: Variable| #[trigger] template_vars(pa).contains(u) implies settled(b, u, d) by {
                assert(list_template_vars(l).contains(u));
            }
            assert forall|u: Variable| #[trigger] list_template_vars(*rest).contains(u) implies settled(b, u, d) by {
                assert(list_template_vars(l).contains(u));
            }
            lemma_apply_covered(b, pa, q, d, fuel);
            lemma_apply_list_covered(b, *rest, *qrest, age, d, fuel);
        }
    }
}

/// [`lemma_apply_covered`] for the fields of a record.
proof fn lemma_apply_fields_covered(b: BindingView, f: FieldList, qf: FieldList, age: Option<usize>, d: nat, fuel: nat)
    requires
        template_fields(f),
        covers_fields(b, f, qf),
        forall|u: Variable| #[trigger] fields_template_vars(f).contains(u) ==> settled(b, u, d),
        fields_depth(f) + d < fuel,
    ensures
        apply_fields(b, f, age, fuel) matches Ok(r) && equal_value_fields(r, qf),
    decreases fuel, fields_len(f) + 1,
{
    if let FieldList::Cons(k, p, rest) = f {
        if let FieldList::Cons(k2, q, qrest) = qf {
            lemma_template_default_age(p, age);
            let pa = with_default_age(p, age);
            assert(covers(b, pa, q) == covers(b, p, q));
            assert(pattern_depth(pa) == pattern_depth(p));
            assert(template_vars(pa) == template_vars(p));
            assert forall|u: Variable| #[trigger] template_vars(pa).contains(u) implies settled(b, u, d) by {
                assert(fields_template_vars(f).contains(u));
            }
            assert forall|u: Variable| #[trigger] fields_template_vars(*rest).contains(u) implies settled(b, u, d) by {
                assert(fields_template_vars(f).contains(u));
            }
            lemma_apply_covered(b, pa, q, d, fuel);
            lemma_apply_fields_covered(b, *rest, *qrest, age, d, fuel);
        }
    }
}

/// [`lemma_apply_covered`] for the items of a list that cover the first items of another:
/// appending to what they apply to a list equal to the items left over gives a list equal
/// to the other.
proof fn lemma_apply_prefix_covered(b: BindingView, l: PatternList, ql: PatternList, age: Option<usize>, d: nat, fuel: nat)
    requires
        template_list(l),
        covers_prefix(b, l, ql) is Some,
        forall|u: Variable| #[trigger] list_template_vars(l).contains(u) ==> settled(b, u, d),
        list_depth(l) + d < fuel,
    ensures
        apply_list(b, l, age, fuel) matches Ok(r) && forall|h: PatternList|
            #[trigger] equal_value_lists(h, covers_prefix(b, l, ql)->Some_0)
                ==> equal_value_lists(crate::pattern::list_append(r, h), ql),
    decreases fuel, list_len(l) + 1,
{
    if let PatternList::Cons(p, rest) = l {
        if let PatternList::Cons(q, qrest) = ql {
            lemma_template_default_age(p, age);
            let pa = with_default_age(p, age);
            assert(covers(b, pa, q) == covers(b, p, q));
            assert(pattern_depth(pa) == pattern_depth(p));
            assert(template_vars(pa) == template_vars(p));
            assert forall|u: Variable| #[trigger] template_vars(pa).contains(u) implies settled(b, u, d) by {
                assert(list_template_vars(l).contains(u));
            }
            assert forall|u: Variable| #[trigger] list_template_vars(*rest).contains(u) implies settled(b, u, d) by {
                assert(list_template_vars(l).contains(u));
            }
            lemma_apply_covered(b, pa, q, d, fuel);
            lemma_apply_prefix_covered(b, *rest, *qrest, age, d, fuel);
            let r = apply_list(b, l, age, fuel)->Ok_0;
            let x = apply_pattern(b, pa, fuel)->Ok_0;
            let rr = apply_list(b, *rest, age, fuel)->Ok_0;
            assert(r == PatternList::Cons(x, Box::new(rr)));
            assert forall|h: PatternList| #[trigger] equal_value_lists(h, covers_prefix(b, l, ql)->Some_0)
                implies equal_value_lists(crate::pattern::list_append(r, h), ql) by {
                assert(covers_prefix(b, l, ql) == covers_prefix(b, *rest, *qrest));
                assert(equal_value_lists(crate::pattern::list_append(rr, h), *qrest));
                assert(crate::pattern::list_append(r, h) == PatternList::Cons(x, Box::new(crate::pattern::list_append(rr, h))));
            }
        }
    } else {
        assert forall|h: PatternList| #[trigger] equal_value_lists(h, covers_prefix(b, l, ql)->Some_0)
            implies equal_value_lists(crate::pattern::list_append(PatternList::Nil, h), ql) by {
        }
    }
}

proof fn lemma_covers_prefix_kept(b1: BindingView, b2: BindingView, l: PatternList, ql: PatternList, d: nat)
    requires
        covers_prefix(b1, l, ql) is Some,
        only_fills(b1, b2, d),
    ensures
        covers_prefix(b2, l, ql) == covers_prefix(b1, l, ql),
    decreases l,
{
    if let PatternList::Cons(p, rest) = l {
        if let PatternList::Cons(q, qrest) = ql {
            lemma_covers_kept(b1, b2, p, q, d);
            lemma_covers_prefix_kept(b1, b2, *rest, *qrest, d);
        }
    }
}

/// What covers a template still covers it once only variables without a value have been
/// given values.
proof fn lemma_covers_kept(b1: BindingView, b2: BindingView, p: Pattern, q: Pattern, d: nat)
    requires
        covers(b1, p, q),
        only_fills(b1, b2, d),
    ensures
        covers(b2, p, q),
    decreases p,
{
    assert(covers_kind(b1, *p.kind, *q.kind));
    match *p.kind {
        PatternKind::Variable(v) => {
            assert(ground_term(crate::binding::self_pattern(v)) == false);
            if lookup(b2.entries, v) != lookup(b1.entries, v) {
                assert(crate::unify_laws::is_unbound_in(v, b1));
            }
        },
        PatternKind::Struct(_, Some(a)) => {
            lemma_covers_kept(b1, b2, a, (*q.kind)->Struct_1.unwrap(), d);
        },
        PatternKind::List(items, None) => {
            lemma_covers_list_kept(b1, b2, items, (*q.kind)->List_0, d);
        },
        PatternKind::List(items, Some(t)) => {
            let qitems = (*q.kind)->List_0;
            lemma_covers_prefix_kept(b1, b2, items, qitems, d);
            let rest = covers_prefix(b1, items, qitems)->Some_0;
            lemma_covers_kept(b1, b2, t, pattern_of(PatternKind::List(rest, None)), d);
        },
        PatternKind::Record(fields, None) => {
            lemma_covers_fields_kept(b1, b2, fields, (*q.kind)->Record_0, d);
        },
        _ => {},
    }
}

proof fn lemma_covers_list_kept(b1: BindingView, b2: BindingView, l: PatternList, ql: PatternList, d: nat)
    requires
        covers_list(b1, l, ql),
        only_fills(b1, b2, d),
    ensures
        covers_list(b2, l, ql),
    decreases l,
{
    if let PatternList::Cons(p, rest) = l {
        if let PatternList::Cons(q, qrest) = ql {
            lemma_covers_kept(b1, b2, p, q, d);
            lemma_covers_list_kept(b1, b2, *rest, *qrest, d);
        }
    }
}

proof fn lemma_covers_fields_kept(b1: BindingView, b2: BindingView, f: FieldList, qf: FieldList, d: nat)
    requires
        covers_fields(b1, f, qf),
        only_fills(b1, b2, d),
    ensures
        covers_fields(b2, f, qf),
    decreases f,
{
    if let FieldList::Cons(_, p, rest) = f {
        if let FieldList::Cons(_, q, qrest) = qf {
            lemma_covers_kept(b1, b2, p, q, d);
            lemma_covers_fields_kept(b1, b2, *rest, *qrest, d);
        }
    }
}

/// Unifying a template, whose variables each have no value or a complete value, with a
/// complete value, when it succeeds, gives a binding that covers the template with the
/// value and differs only in giving variables without a value parts of the value.
pub proof fn lemma_unify_covers(p: Pattern, q: Pattern, b: BindingView, d: nat, fuel: nat)
    requires
        b.wf(),
        template(p),
        ground_term(q),
        resolved(b, p, d),
        pattern_depth(q) <= d,
        2 * (pattern_depth(p) + d) + 2 < fuel,
    ensures
        crate::unify::unify_inner(p, q, b, fuel) matches Some((_, b2)) ==> {
            &&& b2.wf()
            &&& covers(b2, p, q)
            &&& only_fills(b, b2, d)
        },
    decreases fuel, 0nat,
{
    let f = (fuel - 1) as nat;
    assert(template_kind(*p.kind));
    assert(ground_kind(*q.kind));
    lemma_ground_term(q, b);
    match *p.kind {
        PatternKind::Variable(v) => {
            assert(template_vars(p).contains(v));
            assert(settled(b, v, d));
            assert(crate::unify::unify_inner(p, q, b, fuel) == crate::unify::unify_var_value(v, q, b, f));
            if crate::unify_laws::is_unbound_in(v, b) {
                assert(b.get(v) == Some(crate::binding::self_pattern(v)));
                assert(!crate::unify::occurs(v, q, b, f));
                assert(crate::unify::unify_var_value(v, q, b, f) == Some((q, b.set(v, q))));
                assert(set_current(v, Some(b.generation())) == v);
                let b2 = b.set(v, q);
                crate::binding::lemma_set_then_lookup(b, v, q, v);
                assert forall|u: Variable| #[trigger] lookup(b2.entries, u) != lookup(b.entries, u)
                    implies crate::unify_laws::is_unbound_in(u, b) && valued(b2, u, d) by {
                    crate::binding::lemma_set_then_lookup(b, v, q, u);
                }
                lemma_equal_values_refl(q);
                assert(equal_values(q, q) == equal_value_kinds(*q.kind, *q.kind));
                assert(covers_kind(b2, *p.kind, *q.kind));
            } else {
                let e = lookup(b.entries, v).unwrap();
                assert(valued(b, v, d));
                assert(ground_kind(*e.kind));
                assert(b.get(v) == Some(e));
                assert(crate::unify::unify_var_value(v, q, b, f) == crate::unify::unify_inner(e, q, b, f));
                crate::unify_laws::lemma_values_unify_iff_equal(e, q, b, f);
                assert(equal_values(e, q) == equal_value_kinds(*e.kind, *q.kind));
                assert(covers_kind(b, *p.kind, *q.kind) == equal_values(e, q));
            }
        },
        PatternKind::Struct(n1, c1) => {
            if let PatternKind::Struct(n2, c2) = *q.kind {
                assert(crate::unify::unify_inner(p, q, b, fuel)
                    == crate::unify::unify_structs(n1, c1, p.age, n2, c2, q.age, p, b, f));
                if n1 == n2 {
                    if let Some(a) = c1 {
                        if let Some(c) = c2 {
                            let aa = with_default_age(a, p.age);
                            let ca = with_default_age(c, q.age);
                            lemma_template_default_age(a, p.age);
                            crate::unify_laws::lemma_ground_default_age(c, q.age);
                            assert(template(aa));
                            assert(template_vars(p) == template_vars(a));
                            assert(template_vars(aa) == template_vars(a));
                            assert(pattern_depth(aa) == pattern_depth(a));
                            assert(pattern_depth(ca) == pattern_depth(c));
                            lemma_unify_covers(aa, ca, b, d, f);
                            if let Some((_, b2)) = crate::unify::unify_inner(aa, ca, b, f) {
                                assert(covers(b2, aa, ca) == covers_kind(b2, *a.kind, *c.kind));
                                assert(covers(b2, a, c));
                                assert(covers_kind(b2, *p.kind, *q.kind));
                            }
                        }
                    } else if c2 is None {
                        assert(covers_kind(b, *p.kind, *q.kind));
                    }
                }
            }
        },
        PatternKind::List(items, Some(t)) => {
            if let PatternKind::List(qitems, _) = *q.kind {
                assert(crate::unify::unify_inner(p, q, b, fuel)
                    == crate::unify::unify_lists(items, Some(t), p.age, qitems, None, q.age, b, f));
                assert(template_vars(p) == list_template_vars(items).union(template_vars(t)));
                assert forall|u: Variable| #[trigger] list_template_vars(items).contains(u) implies settled(b, u, d) by {
                    assert(template_vars(p).contains(u));
                }
                assert forall|u: Variable| #[trigger] template_vars(t).contains(u) implies settled(b, u, d) by {
                    assert(template_vars(p).contains(u));
                }
                assert(option_depth(Some(t)) == pattern_depth(t));
                assert(template_kind(*t.kind));
                assert(pattern_depth(t) == 1);
                lemma_unify_tail_covers(items, t, qitems, p.age, q.age, b, d, f);
                if let Some((_, b3)) = crate::unify::unify_lists(items, Some(t), p.age, qitems, None, q.age, b, f) {
                    assert(covers_kind(b3, *p.kind, *q.kind));
                }
            }
        },
        PatternKind::List(items, None) => {
            if let PatternKind::List(qitems, _) = *q.kind {
                assert(crate::unify::unify_inner(p, q, b, fuel)
                    == crate::unify::unify_lists(items, None, p.age, qitems, None, q.age, b, f));
                assert(template_vars(p) == list_template_vars(items));
                let sub = (f - 1) as nat;
                lemma_unify_sequence_covers(items, qitems, p.age, q.age, b, d, sub);
                if let Some((its, b2)) = crate::unify::unify_sequence(
                    crate::pattern::list_seq(crate::unify::list_aged(items, p.age)),
                    crate::pattern::list_seq(crate::unify::list_aged(qitems, q.age)), b, sub) {
                    assert(crate::unify::unify_lists(items, None, p.age, qitems, None, q.age, b, f)
                        == Some((crate::pattern::list_pattern(crate::unify::list_of_seq(its), None), b2)));
                }
            }
        },
        PatternKind::Record(fields, _) => {
            if let PatternKind::Record(qfields, _) = *q.kind {
                assert(crate::unify::unify_inner(p, q, b, fuel)
                    == crate::unify::unify_records(fields, None, p.age, qfields, None, q.age, b, f));
                assert(template_vars(p) == fields_template_vars(fields));
                let sub = (f - 1) as nat;
                let l = crate::unify::fields_aged(fields, p.age);
                let r = crate::unify::fields_aged(qfields, q.age);
                lemma_unify_fields_covers(fields, qfields, p.age, q.age, FieldList::Nil, b, d, sub);
                if fields_len(l) == fields_len(r) {
                    if let Some((fs, b2)) = crate::unify::unify_fields(l, r, FieldList::Nil, b, sub) {
                        assert(crate::unify::unify_records(fields, None, p.age, qfields, None, q.age, b, f)
                            == Some((crate::pattern::record_pattern(fs, None), b2)));
                    }
                }
            }
        },
        _ => {},
    }
}

proof fn lemma_aged_list_facts(l: PatternList, a: Option<usize>)
    requires
        ground_list(l),
    ensures
        ground_list(crate::unify::list_aged(l, a)),
        list_depth(crate::unify::list_aged(l, a)) == list_depth(l),
        forall|x: PatternList| #[trigger] equal_value_lists(x, crate::unify::list_aged(l, a)) ==> equal_value_lists(x, l),
    decreases l,
{
    if let PatternList::Cons(p, rest) = l {
        crate::unify_laws::lemma_ground_default_age(p, a);
        lemma_aged_list_facts(*rest, a);
        assert forall|x: PatternList| #[trigger] equal_value_lists(x, crate::unify::list_aged(l, a)) implies equal_value_lists(x, l) by {
            if let PatternList::Cons(y, xr) = x {
                assert(equal_values(y, with_default_age(p, a)));
                assert(equal_values(y, p));
                assert(equal_value_lists(*xr, crate::unify::list_aged(*rest, a)));
                assert(equal_value_lists(*xr, *rest));
            }
        }
    }
}

proof fn lemma_prefix_rest_facts(b: BindingView, l: PatternList, ql: PatternList)
    requires
        ground_list(ql),
        covers_prefix(b, l, ql) is Some,
    ensures
        ground_list(covers_prefix(b, l, ql)->Some_0),
        list_depth(covers_prefix(b, l, ql)->Some_0) <= list_depth(ql),
        list_len(l) <= list_len(ql),
    decreases l,
{
    if let PatternList::Cons(_, rest) = l {
        if let PatternList::Cons(_, qrest) = ql {
            lemma_prefix_rest_facts(b, *rest, *qrest);
        }
    }
}

/// [`lemma_unify_covers`] for the items of a list against the first as many items of a
/// complete list: what is left over of the second is the items the first does not cover.
proof fn lemma_unify_prefix_covers(l: PatternList, ql: PatternList, a1: Option<usize>, a2: Option<usize>, b: BindingView, d: nat, fuel: nat)
    requires
        b.wf(),
        template_list(l),
        ground_list(ql),
        forall|u: Variable| #[trigger] list_template_vars(l).contains(u) ==> settled(b, u, d),
        list_depth(ql) <= d,
        2 * (list_depth(l) + d) + 2 < fuel,
        list_len(l) <= list_len(ql),
    ensures
        crate::unify::unify_prefix(
            crate::pattern::list_seq(crate::unify::list_aged(l, a1)),
            crate::pattern::list_seq(crate::unify::list_aged(ql, a2)), b, fuel) matches Some((_, rest, b2)) ==> {
            &&& b2.wf()
            &&& only_fills(b, b2, d)
            &&& covers_prefix(b2, l, ql) is Some
            &&& rest == crate::pattern::list_seq(crate::unify::list_aged(covers_prefix(b2, l, ql)->Some_0, a2))
        },
    decreases fuel, list_len(l) + 1,
{
    let s1 = crate::pattern::list_seq(crate::unify::list_aged(l, a1));
    let s2 = crate::pattern::list_seq(crate::unify::list_aged(ql, a2));
    crate::unify_laws::lemma_list_aged_len(l, a1);
    crate::unify_laws::lemma_list_aged_len(ql, a2);
    match l {
        PatternList::Nil => {
            assert(s1.len() == 0);
        },
        PatternList::Cons(p, rest) => {
            if let PatternList::Cons(q, qrest) = ql {
                let pa = with_default_age(p, a1);
                let qa = with_default_age(q, a2);
                assert(s1[0] == pa);
                assert(s2[0] == qa);
                assert(s1.drop_first() =~= crate::pattern::list_seq(crate::unify::list_aged(*rest, a1)));
                assert(s2.drop_first() =~= crate::pattern::list_seq(crate::unify::list_aged(*qrest, a2)));
                lemma_template_default_age(p, a1);
                crate::unify_laws::lemma_ground_default_age(q, a2);
                assert(template(p));
                assert(template(pa));
                assert(ground_term(q));
                assert(template_vars(pa) == template_vars(p));
                assert(pattern_depth(pa) == pattern_depth(p));
                assert(pattern_depth(qa) == pattern_depth(q));
                assert forall|u: Variable| #[trigger] template_vars(pa).contains(u) implies settled(b, u, d) by {
                    assert(list_template_vars(l).contains(u));
                }
                lemma_unify_covers(pa, qa, b, d, fuel);
                if let Some((_, b1)) = crate::unify::unify_inner(pa, qa, b, fuel) {
                    assert forall|u: Variable| #[trigger] list_template_vars(*rest).contains(u) implies settled(b1, u, d) by {
                        assert(list_template_vars(l).contains(u));
                        lemma_settled_after(b, b1, u, d);
                    }
                    lemma_unify_prefix_covers(*rest, *qrest, a1, a2, b1, d, fuel);
                    if let Some((_, r, b2)) = crate::unify::unify_prefix(s1.drop_first(), s2.drop_first(), b1, fuel) {
                        assert(covers(b1, p, q) == covers_kind(b1, *pa.kind, *qa.kind));
                        lemma_covers_kept(b1, b2, p, q, d);
                        lemma_only_fills_trans(b, b1, b2, d);
                        assert(covers_prefix(b2, l, ql) == covers_prefix(b2, *rest, *qrest));
                    }
                }
            }
        },
    }
}

/// [`lemma_unify_covers`] for a list with a variable for its rest against a complete list.
proof fn lemma_unify_tail_covers(items: PatternList, t: Pattern, qitems: PatternList, a1: Option<usize>, a2: Option<usize>, b: BindingView, d: nat, fuel: nat)
    requires
        b.wf(),
        template_list(items),
        *t.kind is Variable,
        template(t),
        ground_list(qitems),
        forall|u: Variable| #[trigger] list_template_vars(items).contains(u) ==> settled(b, u, d),
        forall|u: Variable| #[trigger] template_vars(t).contains(u) ==> settled(b, u, d),
        1 + list_depth(qitems) <= d,
        2 * (1 + max_nat(list_depth(items), 1) + d) + 2 < fuel + 1,
    ensures
        crate::unify::unify_lists(items, Some(t), a1, qitems, None, a2, b, fuel) matches Some((_, b3)) ==> {
            &&& b3.wf()
            &&& only_fills(b, b3, d)
            &&& covers_prefix(b3, items, qitems) matches Some(rest)
            &&& covers(b3, t, pattern_of(PatternKind::List(rest, None)))
        },
    decreases fuel, 1nat,
{
    if fuel > 0 {
        let sub = (fuel - 1) as nat;
        let l = crate::pattern::list_seq(crate::unify::list_aged(items, a1));
        let r = crate::pattern::list_seq(crate::unify::list_aged(qitems, a2));
        let tv = (*t.kind)->Variable_0;
        assert(template_kind(*t.kind));
        assert(template_vars(t) == set![tv]);
        assert(template_vars(t).contains(tv));
        assert(set_current(tv, a1) == tv);
        crate::unify_laws::lemma_list_aged_len(items, a1);
        crate::unify_laws::lemma_list_aged_len(qitems, a2);
        if list_len(items) <= list_len(qitems) {
            assert(crate::unify::unify_full_prefix(l, r, b, sub) == crate::unify::unify_prefix(l, r, b, sub));
            lemma_unify_prefix_covers(items, qitems, a1, a2, b, d, sub);
            if let Some((output, rest, b2)) = crate::unify::unify_prefix(l, r, b, sub) {
                let rl = covers_prefix(b2, items, qitems)->Some_0;
                lemma_prefix_rest_facts(b2, items, qitems);
                lemma_aged_list_facts(rl, a2);
                crate::unify::lemma_list_roundtrip(crate::unify::list_aged(rl, a2));
                assert(crate::unify::list_of_seq(rest) == crate::unify::list_aged(rl, a2));
                let restlist = crate::pattern::list_pattern(crate::unify::list_of_seq(rest), None);
                assert(restlist == pattern_of(PatternKind::List(crate::unify::list_aged(rl, a2), None)));
                assert(ground_term(restlist));
                assert(option_depth(None::<Pattern>) == 0);
                assert(kind_depth(PatternKind::List(crate::unify::list_aged(rl, a2), None))
                    == 1 + max_nat(list_depth(crate::unify::list_aged(rl, a2)), 0));
                assert(pattern_depth(restlist) == 1 + list_depth(rl));
                lemma_settled_after(b, b2, tv, d);
                let sv = crate::binding::self_pattern(tv);
                assert(template(sv));
                assert(template_vars(sv) == set![tv]);
                assert(resolved(b2, sv, d));
                let restq = pattern_of(PatternKind::List(rl, None));
                if crate::unify_laws::is_unbound_in(tv, b2) {
                    assert(b2.get(tv) == Some(sv));
                    lemma_unify_covers(sv, restlist, b2, d, fuel);
                    if let Some((tail2, b3)) = crate::unify::unify_inner(sv, restlist, b2, fuel) {
                        lemma_covers_prefix_kept(b2, b3, items, qitems, d);
                        lemma_only_fills_trans(b, b2, b3, d);
                        let e = lookup(b3.entries, tv).unwrap();
                        assert(covers_kind(b3, *sv.kind, *restlist.kind));
                        assert(equal_value_kinds(*e.kind, *restlist.kind));
                        if let PatternKind::List(h, None) = *e.kind {
                            assert(equal_value_lists(h, crate::unify::list_aged(rl, a2)));
                            assert(equal_value_lists(h, rl));
                        }
                        assert(equal_value_kinds(*e.kind, *restq.kind));
                        assert(covers_kind(b3, *t.kind, *restq.kind));
                    }
                } else {
                    let e0 = lookup(b2.entries, tv).unwrap();
                    assert(valued(b2, tv, d));
                    assert(ground_kind(*e0.kind));
                    assert(b2.get(tv) == Some(e0));
                    crate::unify_laws::lemma_values_unify_iff_equal(e0, restlist, b2, fuel);
                    if let Some((tail2, b3)) = crate::unify::unify_inner(e0, restlist, b2, fuel) {
                        assert(b3 == b2);
                        assert(equal_values(e0, restlist) == equal_value_kinds(*e0.kind, *restlist.kind));
                        if let PatternKind::List(h, None) = *e0.kind {
                            assert(equal_value_lists(h, crate::unify::list_aged(rl, a2)));
                            assert(equal_value_lists(h, rl));
                        }
                        assert(equal_value_kinds(*e0.kind, *restq.kind));
                        assert(covers_kind(b3, *t.kind, *restq.kind));
                    }
                }
            }
        }
    }
}

/// [`lemma_unify_covers`] for the items of a complete list.
proof fn lemma_unify_sequence_covers(l: PatternList, ql: PatternList, a1: Option<usize>, a2: Option<usize>, b: BindingView, d: nat, fuel: nat)
    requires
        b.wf(),
        template_list(l),
        ground_list(ql),
        forall|u: Variable| #[trigger] list_template_vars(l).contains(u) ==> settled(b, u, d),
        list_depth(ql) <= d,
        2 * (list_depth(l) + d) + 2 < fuel,
    ensures
        crate::unify::unify_sequence(
            crate::pattern::list_seq(crate::unify::list_aged(l, a1)),
            crate::pattern::list_seq(crate::unify::list_aged(ql, a2)), b, fuel) matches Some((_, b2)) ==> {
            &&& b2.wf()
            &&& covers_list(b2, l, ql)
            &&& only_fills(b, b2, d)
        },
    decreases fuel, list_len(l) + 1,
{
    let s1 = crate::pattern::list_seq(crate::unify::list_aged(l, a1));
    let s2 = crate::pattern::list_seq(crate::unify::list_aged(ql, a2));
    crate::unify_laws::lemma_list_aged_len(l, a1);
    crate::unify_laws::lemma_list_aged_len(ql, a2);
    match l {
        PatternList::Nil => {
            if let PatternList::Cons(_, _) = ql {
                assert(s1.len() != s2.len());
            }
        },
        PatternList::Cons(p, rest) => {
            if let PatternList::Cons(q, qrest) = ql {
                let pa = with_default_age(p, a1);
                let qa = with_default_age(q, a2);
                assert(s1[0] == pa);
                assert(s2[0] == qa);
                assert(s1.drop_first() =~= crate::pattern::list_seq(crate::unify::list_aged(*rest, a1)));
                assert(s2.drop_first() =~= crate::pattern::list_seq(crate::unify::list_aged(*qrest, a2)));
                lemma_template_default_age(p, a1);
                crate::unify_laws::lemma_ground_default_age(q, a2);
                assert(template(p));
                assert(template(pa));
                assert(ground_term(q));
                assert(template_vars(pa) == template_vars(p));
                assert(pattern_depth(pa) == pattern_depth(p));
                assert(pattern_depth(qa) == pattern_depth(q));
                assert forall|u: Variable| #[trigger] template_vars(pa).contains(u) implies settled(b, u, d) by {
                    assert(list_template_vars(l).contains(u));
                }
                lemma_unify_covers(pa, qa, b, d, fuel);
                if let Some((_, b1)) = crate::unify::unify_inner(pa, qa, b, fuel) {
                    assert forall|u: Variable| #[trigger] list_template_vars(*rest).contains(u) implies settled(b1, u, d) by {
                        assert(list_template_vars(l).contains(u));
                        lemma_settled_after(b, b1, u, d);
                    }
                    lemma_unify_sequence_covers(*rest, *qrest, a1, a2, b1, d, fuel);
                    if let Some((_, b2)) = crate::unify::unify_sequence(s1.drop_first(), s2.drop_first(), b1, fuel) {
                        assert(covers(b1, p, q) == covers_kind(b1, *pa.kind, *qa.kind));
                        lemma_covers_kept(b1, b2, p, q, d);
                        lemma_only_fills_trans(b, b1, b2, d);
                    }
                }
            }
        },
    }
}

/// [`lemma_unify_covers`] for the fields of a complete record.
proof fn lemma_unify_fields_covers(f: FieldList, qf: FieldList, a1: Option<usize>, a2: Option<usize>, acc: FieldList, b: BindingView, d: nat, fuel: nat)
    requires
        b.wf(),
        template_fields(f),
        ground_fields(qf),
        forall|u: Variable| #[trigger] fields_template_vars(f).contains(u) ==> settled(b, u, d),
        fields_depth(qf) <= d,
        2 * (fields_depth(f) + d) + 2 < fuel,
    ensures
        crate::unify::unify_fields(crate::unify::fields_aged(f, a1), crate::unify::fields_aged(qf, a2), acc, b, fuel) matches Some((_, b2)) ==> {
            &&& b2.wf()
            &&& covers_fields(b2, f, qf)
            &&& only_fills(b, b2, d)
        },
    decreases fuel, fields_len(f) + 1,
{
    if let FieldList::Cons(k, p, rest) = f {
        if let FieldList::Cons(k2, q, qrest) = qf {
            if k == k2 {
                let pa = with_default_age(p, a1);
                let qa = with_default_age(q, a2);
                lemma_template_default_age(p, a1);
                crate::unify_laws::lemma_ground_default_age(q, a2);
                assert(template(p));
                assert(template(pa));
                assert(ground_term(q));
                assert(template_vars(pa) == template_vars(p));
                assert(pattern_depth(pa) == pattern_depth(p));
                assert(pattern_depth(qa) == pattern_depth(q));
                assert forall|u: Variable| #[trigger] template_vars(pa).contains(u) implies settled(b, u, d) by {
                    assert(fields_template_vars(f).contains(u));
                }
                lemma_unify_covers(pa, qa, b, d, fuel);
                if let Some((x, b1)) = crate::unify::unify_inner(pa, qa, b, fuel) {
                    assert forall|u: Variable| #[trigger] fields_template_vars(*rest).contains(u) implies settled(b1, u, d) by {
                        assert(fields_template_vars(f).contains(u));
                        lemma_settled_after(b, b1, u, d);
                    }
                    let acc2 = crate::pattern::fields_insert(acc, k, x);
                    lemma_unify_fields_covers(*rest, *qrest, a1, a2, acc2, b1, d, fuel);
                    if let Some((_, b2)) = crate::unify::unify_fields(crate::unify::fields_aged(*rest, a1), crate::unify::fields_aged(*qrest, a2), acc2, b1, fuel) {
                        assert(covers(b1, p, q) == covers_kind(b1, *pa.kind, *qa.kind));
                        lemma_covers_kept(b1, b2, p, q, d);
                        lemma_only_fills_trans(b, b1, b2, d);
                    }
                }
            }
        }
    }
}

/// Unification makes the two sides equal, and a variable unifies only once: unifying a
/// template, whose variables each have no value or a complete value, with a complete
/// value, when it succeeds, gives each variable without a value the part of the value at
/// its place (the rest of a list the items left over) and keeps the value of every
/// variable that has one, which must then equal the part at its place; the template then applies
/// to the value (literals compared by value) and the value to itself (given more steps than
/// the template nests together with the values, all of which nest no deeper than `d`).
pub proof fn lemma_template_and_value_apply_alike(p: Pattern, q: Pattern, b: BindingView, d: nat, fuel: nat)
    requires
        b.wf(),
        template(p),
        ground_term(q),
        resolved(b, p, d),
        pattern_depth(q) <= d,
        2 * (pattern_depth(p) + d) + 2 < crate::unify_laws::full_fuel(),
        pattern_depth(p) + d < fuel,
    ensures
        crate::unify::unify_patterns_spec(p, q, b, crate::unify_laws::full_fuel()) matches Some(b2) ==> {
            &&& b2.wf()
            &&& only_fills(b, b2, d)
            &&& apply_pattern(b2, p, fuel) matches Ok(r) && equal_values(r, q)
            &&& apply_pattern(b2, q, fuel) matches Ok(s) && same_term(s, q)
        },
{
    let g = Some(b.generation());
    let pa = with_default_age(p, g);
    let qa = with_default_age(q, g);
    lemma_template_default_age(p, g);
    crate::unify_laws::lemma_ground_default_age(q, g);
    assert(template(pa));
    assert(template_vars(pa) == template_vars(p));
    assert(pattern_depth(pa) == pattern_depth(p));
    lemma_unify_covers(pa, qa, b, d, crate::unify_laws::full_fuel());
    if let Some((_, b2)) = crate::unify::unify_inner(pa, qa, b, crate::unify_laws::full_fuel()) {
        assert(covers(b2, pa, qa) == covers_kind(b2, *p.kind, *q.kind));
        assert(covers(b2, p, q));
        assert forall|u: Variable| #[trigger] template_vars(p).contains(u) implies settled(b2, u, d) by {
            lemma_settled_after(b, b2, u, d);
        }
        lemma_apply_covered(b2, p, q, d, fuel);
        lemma_ground_term(q, b2);
        lemma_apply_applied(b2, q, fuel);
    }
}


/// [`lemma_unify_covers`] with the value on the left and the template on the right: unifying
/// them, when it succeeds, gives a binding that covers the template with the
/// value and differs only in giving variables without a value parts of the value.
pub proof fn lemma_unify_covers_right(p: Pattern, q: Pattern, b: BindingView, d: nat, fuel: nat)
    requires
        b.wf(),
        template(p),
        ground_term(q),
        resolved(b, p, d),
        pattern_depth(q) <= d,
        2 * (pattern_depth(p) + d) + 3 < fuel,
    ensures
        crate::unify::unify_inner(q, p, b, fuel) matches Some((_, b2)) ==> {
            &&& b2.wf()
            &&& covers(b2, p, q)
            &&& only_fills(b, b2, d)
        },
    decreases fuel, 0nat,
{
    let f = (fuel - 1) as nat;
    assert(template_kind(*p.kind));
    assert(ground_kind(*q.kind));
    lemma_ground_term(q, b);
    match *p.kind {
        PatternKind::Variable(v) => {
            assert(crate::unify::unify_inner(q, p, b, fuel) == crate::unify::unify_inner(p, q, b, f));
            lemma_unify_covers(p, q, b, d, f);
        },
        PatternKind::Struct(n1, c1) => {
            if let PatternKind::Struct(n2, c2) = *q.kind {
                assert(crate::unify::unify_inner(q, p, b, fuel)
                    == crate::unify::unify_structs(n2, c2, q.age, n1, c1, p.age, q, b, f));
                if n1 == n2 {
                    if let Some(a) = c1 {
                        if let Some(c) = c2 {
                            let aa = with_default_age(a, p.age);
                            let ca = with_default_age(c, q.age);
                            lemma_template_default_age(a, p.age);
                            crate::unify_laws::lemma_ground_default_age(c, q.age);
                            assert(template(aa));
                            assert(template_vars(p) == template_vars(a));
                            assert(template_vars(aa) == template_vars(a));
                            assert(pattern_depth(aa) == pattern_depth(a));
                            assert(pattern_depth(ca) == pattern_depth(c));
                            lemma_unify_covers_right(aa, ca, b, d, f);
                            if let Some((_, b2)) = crate::unify::unify_inner(ca, aa, b, f) {
                                assert(covers(b2, aa, ca) == covers_kind(b2, *a.kind, *c.kind));
                                assert(covers(b2, a, c));
                                assert(covers_kind(b2, *p.kind, *q.kind));
                            }
                        }
                    } else if c2 is None {
                        assert(covers_kind(b, *p.kind, *q.kind));
                    }
                }
            }
        },
        PatternKind::List(items, Some(t)) => {
            if let PatternKind::List(qitems, _) = *q.kind {
                let sub = (f - 1) as nat;
                assert(crate::unify::unify_inner(q, p, b, fuel)
                    == crate::unify::unify_lists(qitems, None, q.age, items, Some(t), p.age, b, f));
                assert(crate::unify::unify_lists(qitems, None, q.age, items, Some(t), p.age, b, f)
                    == crate::unify::unify_lists(items, Some(t), p.age, qitems, None, q.age, b, sub));
                assert(crate::unify::unify_inner(p, q, b, f)
                    == crate::unify::unify_lists(items, Some(t), p.age, qitems, None, q.age, b, sub));
                lemma_unify_covers(p, q, b, d, f);
            }
        },
        PatternKind::List(items, None) => {
            if let PatternKind::List(qitems, _) = *q.kind {
                assert(crate::unify::unify_inner(q, p, b, fuel)
                    == crate::unify::unify_lists(qitems, None, q.age, items, None, p.age, b, f));
                assert(template_vars(p) == list_template_vars(items));
                let sub = (f - 1) as nat;
                lemma_unify_sequence_covers_right(items, qitems, p.age, q.age, b, d, sub);
                if let Some((its, b2)) = crate::unify::unify_sequence(
                    crate::pattern::list_seq(crate::unify::list_aged(qitems, q.age)),
                    crate::pattern::list_seq(crate::unify::list_aged(items, p.age)), b, sub) {
                    assert(crate::unify::unify_lists(qitems, None, q.age, items, None, p.age, b, f)
                        == Some((crate::pattern::list_pattern(crate::unify::list_of_seq(its), None), b2)));
                }
            }
        },
        PatternKind::Record(fields, _) => {
            if let PatternKind::Record(qfields, _) = *q.kind {
                assert(crate::unify::unify_inner(q, p, b, fuel)
                    == crate::unify::unify_records(qfields, None, q.age, fields, None, p.age, b, f));
                assert(template_vars(p) == fields_template_vars(fields));
                let sub = (f - 1) as nat;
                let l = crate::unify::fields_aged(fields, p.age);
                let r = crate::unify::fields_aged(qfields, q.age);
                lemma_unify_fields_covers_right(fields, qfields, p.age, q.age, FieldList::Nil, b, d, sub);
                if fields_len(r) == fields_len(l) {
                    if let Some((fs, b2)) = crate::unify::unify_fields(r, l, FieldList::Nil, b, sub) {
                        assert(crate::unify::unify_records(qfields, None, q.age, fields, None, p.age, b, f)
                            == Some((crate::pattern::record_pattern(fs, None), b2)));
                    }
                }
            }
        },
        _ => {},
    }
}

/// [`lemma_unify_covers_right`] for the items of a complete list.
proof fn lemma_unify_sequence_covers_right(l: PatternList, ql: PatternList, a1: Option<usize>, a2: Option<usize>, b: BindingView, d: nat, fuel: nat)
    requires
        b.wf(),
        template_list(l),
        ground_list(ql),
        forall|u: Variable| #[trigger] list_template_vars(l).contains(u) ==> settled(b, u, d),
        list_depth(ql) <= d,
        2 * (list_depth(l) + d) + 3 < fuel,
    ensures
        crate::unify::unify_sequence(
            crate::pattern::list_seq(crate::unify::list_aged(ql, a2)),
            crate::pattern::list_seq(crate::unify::list_aged(l, a1)), b, fuel) matches Some((_, b2)) ==> {
            &&& b2.wf()
            &&& covers_list(b2, l, ql)
            &&& only_fills(b, b2, d)
        },
    decreases fuel, list_len(l) + 1,
{
    let s1 = crate::pattern::list_seq(crate::unify::list_aged(l, a1));
    let s2 = crate::pattern::list_seq(crate::unify::list_aged(ql, a2));
    crate::unify_laws::lemma_list_aged_len(l, a1);
    crate::unify_laws::lemma_list_aged_len(ql, a2);
    match l {
        PatternList::Nil => {
            if let PatternList::Cons(_, _) = ql {
                assert(s2.len() != s1.len());
            }
        },
        PatternList::Cons(p, rest) => {
            if let PatternList::Cons(q, qrest) = ql {
                let pa = with_default_age(p, a1);
                let qa = with_default_age(q, a2);
                assert(s1[0] == pa);
                assert(s2[0] == qa);
                assert(s1.drop_first() =~= crate::pattern::list_seq(crate::unify::list_aged(*rest, a1)));
                assert(s2.drop_first() =~= crate::pattern::list_seq(crate::unify::list_aged(*qrest, a2)));
                lemma_template_default_age(p, a1);
                crate::unify_laws::lemma_ground_default_age(q, a2);
                assert(template(p));
                assert(template(pa));
                assert(ground_term(q));
                assert(template_vars(pa) == template_vars(p));
                assert(pattern_depth(pa) == pattern_depth(p));
                assert(pattern_depth(qa) == pattern_depth(q));
                assert forall|u: Variable| #[trigger] template_vars(pa).contains(u) implies settled(b, u, d) by {
                    assert(list_template_vars(l).contains(u));
                }
                assert(list_depth(l) == max_nat(pattern_depth(p), list_depth(*rest)));
                assert(2 * (pattern_depth(pa) + d) + 3 < fuel);
                lemma_unify_covers_right(pa, qa, b, d, fuel);
                if let Some((_, b1)) = crate::unify::unify_inner(qa, pa, b, fuel) {
                    assert forall|u: Variable| #[trigger] list_template_vars(*rest).contains(u) implies settled(b1, u, d) by {
                        assert(list_template_vars(l).contains(u));
                        lemma_settled_after(b, b1, u, d);
                    }
                    lemma_unify_sequence_covers_right(*rest, *qrest, a1, a2, b1, d, fuel);
                    if let Some((_, b2)) = crate::unify::unify_sequence(s2.drop_first(), s1.drop_first(), b1, fuel) {
                        assert(covers(b1, p, q) == covers_kind(b1, *pa.kind, *qa.kind));
                        lemma_covers_kept(b1, b2, p, q, d);
                        lemma_only_fills_trans(b, b1, b2, d);
                    }
                }
            }
        },
    }
}

/// [`lemma_unify_covers_right`] for the fields of a complete record.
proof fn lemma_unify_fields_covers_right(f: FieldList, qf: FieldList, a1: Option<usize>, a2: Option<usize>, acc: FieldList, b: BindingView, d: nat, fuel: nat)
    requires
        b.wf(),
        template_fields(f),
        ground_fields(qf),
        forall|u: Variable| #[trigger] fields_template_vars(f).contains(u) ==> settled(b, u, d),
        fields_depth(qf) <= d,
        2 * (fields_depth(f) + d) + 3 < fuel,
    ensures
        crate::unify::unify_fields(crate::unify::fields_aged(qf, a2), crate::unify::fields_aged(f, a1), acc, b, fuel) matches Some((_, b2)) ==> {
            &&& b2.wf()
            &&& covers_fields(b2, f, qf)
            &&& only_fills(b, b2, d)
        },
    decreases fuel, fields_len(f) + 1,
{
    if let FieldList::Cons(k, p, rest) = f {
        if let FieldList::Cons(k2, q, qrest) = qf {
            if k == k2 {
                let pa = with_default_age(p, a1);
                let qa = with_default_age(q, a2);
                lemma_template_default_age(p, a1);
                crate::unify_laws::lemma_ground_default_age(q, a2);
                assert(template(p));
                assert(template(pa));
                assert(ground_term(q));
                assert(template_vars(pa) == template_vars(p));
                assert(pattern_depth(pa) == pattern_depth(p));
                assert(pattern_depth(qa) == pattern_depth(q));
                assert forall|u: Variable| #[trigger] template_vars(pa).contains(u) implies settled(b, u, d) by {
                    assert(fields_template_vars(f).contains(u));
                }
                assert(fields_depth(f) == max_nat(pattern_depth(p), fields_depth(*rest)));
                assert(2 * (pattern_depth(pa) + d) + 3 < fuel);
                lemma_unify_covers_right(pa, qa, b, d, fuel);
                if let Some((x, b1)) = crate::unify::unify_inner(qa, pa, b, fuel) {
                    assert forall|u: Variable| #[trigger] fields_template_vars(*rest).contains(u) implies settled(b1, u, d) by {
                        assert(fields_template_vars(f).contains(u));
                        lemma_settled_after(b, b1, u, d);
                    }
                    let acc2 = crate::pattern::fields_insert(acc, k2, x);
                    lemma_unify_fields_covers_right(*rest, *qrest, a1, a2, acc2, b1, d, fuel);
                    if let Some((_, b2)) = crate::unify::unify_fields(crate::unify::fields_aged(*qrest, a2), crate::unify::fields_aged(*rest, a1), acc2, b1, fuel) {
                        assert(covers(b1, p, q) == covers_kind(b1, *pa.kind, *qa.kind));
                        lemma_covers_kept(b1, b2, p, q, d);
                        lemma_only_fills_trans(b, b1, b2, d);
                    }
                }
            }
        }
    }
}


/// [`lemma_template_and_value_apply_alike`] with the value on the left and the template on
/// the right.
pub proof fn lemma_value_and_template_apply_alike(q: Pattern, p: Pattern, b: BindingView, d: nat, fuel: nat)
    requires
        b.wf(),
        template(p),
        ground_term(q),
        resolved(b, p, d),
        pattern_depth(q) <= d,
        2 * (pattern_depth(p) + d) + 3 < crate::unify_laws::full_fuel(),
        pattern_depth(p) + d < fuel,
    ensures
        crate::unify::unify_patterns_spec(q, p, b, crate::unify_laws::full_fuel()) matches Some(b2) ==> {
            &&& b2.wf()
            &&& only_fills(b, b2, d)
            &&& apply_pattern(b2, p, fuel) matches Ok(r) && equal_values(r, q)
            &&& apply_pattern(b2, q, fuel) matches Ok(s) && same_term(s, q)
        },
{
    let g = Some(b.generation());
    let pa = with_default_age(p, g);
    let qa = with_default_age(q, g);
    lemma_template_default_age(p, g);
    crate::unify_laws::lemma_ground_default_age(q, g);
    assert(template(pa));
    assert(template_vars(pa) == template_vars(p));
    assert(pattern_depth(pa) == pattern_depth(p));
    lemma_unify_covers_right(pa, qa, b, d, crate::unify_laws::full_fuel());
    if let Some((_, b2)) = crate::unify::unify_inner(qa, pa, b, crate::unify_laws::full_fuel()) {
        assert(covers(b2, pa, qa) == covers_kind(b2, *p.kind, *q.kind));
        assert(covers(b2, p, q));
        assert forall|u: Variable| #[trigger] template_vars(p).contains(u) implies settled(b2, u, d) by {
            lemma_settled_after(b, b2, u, d);
        }
        lemma_apply_covered(b2, p, q, d, fuel);
        lemma_ground_term(q, b2);
        lemma_apply_applied(b2, q, fuel);
    }
}

} // verus!

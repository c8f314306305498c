//! What unification promises whatever the patterns: laws over the specifications of
//! [`crate::unify`].
use crate::atom::Atom;
use crate::binding::{BindingView, lookup, self_pattern};
use crate::literal::{Literal, literal_eq};
use crate::pattern::{Pattern, PatternKind, PatternList, FieldList, with_default_age, list_seq, list_len, pattern_of, pattern_variables, kind_variables, list_variables};
use crate::unify::{unify_inner, unify_all, unify_var_var, unify_var_value, unify_structs, unify_sequence, unify_prefix, unify_full_prefix, unify_lists, unify_fields, unify_fields_partial, unify_fields_difference, unify_records, list_aged, fields_aged, list_of_seq, list_checked, record_checked, unify_patterns_spec, occurs, UNIFY_FUEL,
    unify_across, unify_across_all, bind_selves, started_generation, start_generation_spec, patterns_variables};
use crate::variable::{Variable, set_current};
use vstd::prelude::*;

verus! {

/// Whether `after` extends `before`: it evaluates the same generations, with the same next
/// generation, and every variable with an entry in `before` has one in `after`.
pub open spec fn extends(before: BindingView, after: BindingView) -> bool {
    &&& after.generations == before.generations
    &&& after.next_generation == before.next_generation
    &&& forall|v: Variable| #[trigger] lookup(before.entries, v) is Some ==> lookup(after.entries, v) is Some
}

/// A variable has an entry exactly when some entry is for it.
pub proof fn lemma_lookup_some(entries: Seq<(Variable, Pattern)>, v: Variable)
    ensures
        lookup(entries, v) is Some <==> exists|i: int| 0 <= i < entries.len() && (#[trigger] entries[i]).0 == v,
    decreases entries.len(),
{
    if entries.len() > 0 {
        lemma_lookup_some(entries.drop_last(), v);
        if entries.last().0 != v {
            if exists|i: int| 0 <= i < entries.len() && (#[trigger] entries[i]).0 == v {
                let i = choose|i: int| 0 <= i < entries.len() && (#[trigger] entries[i]).0 == v;
                assert(i < entries.len() - 1);
                assert(entries.drop_last()[i].0 == v);
            }
            if exists|i: int| 0 <= i < entries.drop_last().len() && (#[trigger] entries.drop_last()[i]).0 == v {
                let i = choose|i: int| 0 <= i < entries.drop_last().len() && (#[trigger] entries.drop_last()[i]).0 == v;
                assert(entries[i].0 == v);
            }
        } else {
            assert(entries[entries.len() - 1].0 == v);
        }
    }
}

/// Binding a variable keeps every variable that had an entry.
pub proof fn lemma_bind_entry_keeps_entries(entries: Seq<(Variable, Pattern)>, v: Variable, p: Pattern, w: Variable)
    ensures
        lookup(entries, w) is Some ==> lookup(crate::binding::bind_entry(entries, v, p), w) is Some,
{
    let after = crate::binding::bind_entry(entries, v, p);
    lemma_lookup_some(entries, w);
    lemma_lookup_some(after, w);
    if lookup(entries, w) is Some {
        let i = choose|i: int| 0 <= i < entries.len() && (#[trigger] entries[i]).0 == w;
        match crate::binding::index_of(entries, v) {
            Some(k) => {
                lemma_index_of_in_range(entries, v);
                assert(after[i].0 == w);
            },
            None => {
                assert(after[i].0 == w);
            },
        }
    }
}

proof fn lemma_index_of_in_range(entries: Seq<(Variable, Pattern)>, v: Variable)
    ensures
        crate::binding::index_of(entries, v) matches Some(k) ==> 0 <= k < entries.len() && entries[k].0 == v,
    decreases entries.len(),
{
    if entries.len() > 0 && entries.last().0 != v {
        lemma_index_of_in_range(entries.drop_last(), v);
    }
}

/// Setting a variable extends a binding.
pub proof fn lemma_set_extends(b: BindingView, v: Variable, p: Pattern)
    ensures
        extends(b, b.set(v, p)),
{
    assert forall|w: Variable| #[trigger] lookup(b.entries, w) is Some implies lookup(b.set(v, p).entries, w) is Some by {
        lemma_bind_entry_keeps_entries(b.entries, set_current(v, Some(b.generation())), p, w);
    }
}

/// Making up a variable extends a binding.
pub proof fn lemma_with_fresh_extends(b: BindingView)
    ensures
        extends(b, b.with_fresh()),
{
    assert forall|w: Variable| #[trigger] lookup(b.entries, w) is Some implies lookup(b.with_fresh().entries, w) is Some by {
        lemma_bind_entry_keeps_entries(b.entries, b.next_fresh(), crate::binding::self_pattern(b.next_fresh()), w);
    }
}

/// Unification only adds to a binding: the binding it produces evaluates the same
/// generations as the one it started from, and every variable that had an entry keeps one.
pub proof fn lemma_unify_extends(lhs: Pattern, rhs: Pattern, b: BindingView, fuel: nat)
    ensures
        unify_inner(lhs, rhs, b, fuel) matches Some((_, b2)) ==> extends(b, b2),
    decreases fuel, 0nat,
{
    if fuel > 0 {
        let f = (fuel - 1) as nat;
        let lk = *lhs.kind;
        let rk = *rhs.kind;
        if rk is All {
            lemma_unify_extends(rhs, lhs, b, f);
        } else if lk is All {
            lemma_all_extends(list_seq(lk->All_0), lhs.age, rhs, b, f);
        } else if lk is Variable && rk is Variable {
            if lk->Variable_0 != rk->Variable_0 {
                lemma_var_var_extends(lk->Variable_0, rk->Variable_0, b, f);
            }
        } else if lk is Bound && rk is Variable {
            lemma_unify_extends(rhs, lhs, b, f);
        } else if lk is Variable && rk is Bound {
        } else if lk is Unbound && rk is Variable {
            lemma_unify_extends(rhs, lhs, b, f);
        } else if lk is Variable && rk is Unbound {
        } else if rk is Variable {
            lemma_unify_extends(rhs, lhs, b, f);
        } else if lk is Variable {
            lemma_var_value_extends(lk->Variable_0, rhs, b, f);
        } else if lk is Any && rk is Any && lk->Any_0 == rk->Any_0 {
        } else if lk is Unbound && rk is Unbound {
        } else if rk is Bound {
        } else if lk is Bound {
        } else if lk is Literal && rk is Literal {
        } else if lk is Struct && rk is Struct {
            lemma_structs_extend(lk->Struct_0, lk->Struct_1, lhs.age, rk->Struct_0, rk->Struct_1, rhs.age, lhs, b, f);
        } else if lk is List && rk is List {
            lemma_lists_extend(lk->List_0, lk->List_1, lhs.age, rk->List_0, rk->List_1, rhs.age, b, f);
        } else if lk is Record && rk is Record {
            lemma_records_extend(lk->Record_0, lk->Record_1, lhs.age, rk->Record_0, rk->Record_1, rhs.age, b, f);
        }
    }
}

proof fn lemma_all_extends(patterns: Seq<Pattern>, age: Option<usize>, rhs: Pattern, b: BindingView, fuel: nat)
    ensures
        unify_all(patterns, age, rhs, b, fuel) matches Some((_, b2)) ==> extends(b, b2),
    decreases fuel, patterns.len() + 1,
{
    if patterns.len() > 0 {
        lemma_unify_extends(with_default_age(patterns[0], age), rhs, b, fuel);
        match unify_inner(with_default_age(patterns[0], age), rhs, b, fuel) {
            None => {},
            Some((rhs2, b2)) => {
                lemma_all_extends(patterns.drop_first(), age, rhs2, b2, fuel);
            },
        }
    }
}

proof fn lemma_var_var_extends(lv: crate::variable::Variable, rv: crate::variable::Variable, b: BindingView, fuel: nat)
    ensures
        unify_var_var(lv, rv, b, fuel) matches Some((_, b2)) ==> extends(b, b2),
    decreases fuel, 1nat,
{
    match (b.get(lv), b.get(rv)) {
        (Some(lp), Some(rp)) => {
            if !(*lp.kind is Variable && *rp.kind is Variable) {
                lemma_unify_extends(lp, rp, b, fuel);
            }
            let joined: Option<(Pattern, BindingView)> = if *lp.kind is Variable && *rp.kind is Variable {
                if crate::variable::variable_lt(lp.kind->Variable_0, rp.kind->Variable_0) {
                    Some((lp, b))
                } else {
                    Some((rp, b))
                }
            } else {
                unify_inner(lp, rp, b, fuel)
            };
            match joined {
                None => {},
                Some((p, b2)) => {
                    lemma_set_extends(b2, lv, p);
                    lemma_set_extends(b2.set(lv, p), rv, p);
                },
            }
        },
        _ => {},
    }
}

proof fn lemma_var_value_extends(var: crate::variable::Variable, rhs: Pattern, b: BindingView, fuel: nat)
    ensures
        unify_var_value(var, rhs, b, fuel) matches Some((_, b2)) ==> extends(b, b2),
    decreases fuel, 1nat,
{
    match b.get(var) {
        None => {},
        Some(vp) => match *vp.kind {
            PatternKind::Variable(pv) => {
                lemma_set_extends(b, pv, rhs);
            },
            _ => {
                lemma_unify_extends(vp, rhs, b, fuel);
            },
        },
    }
}

proof fn lemma_structs_extend(
    lname: Atom,
    lcontents: Option<Pattern>,
    lage: Option<usize>,
    rname: Atom,
    rcontents: Option<Pattern>,
    rage: Option<usize>,
    lhs: Pattern,
    b: BindingView,
    fuel: nat,
)
    ensures
        unify_structs(lname, lcontents, lage, rname, rcontents, rage, lhs, b, fuel) matches Some((_, b2)) ==> extends(b, b2),
    decreases fuel, 1nat,
{
    if lname == rname {
        match (lcontents, rcontents) {
            (Some(lc), Some(rc)) => {
                lemma_unify_extends(with_default_age(lc, lage), with_default_age(rc, rage), b, fuel);
            },
            _ => {},
        }
    }
}

proof fn lemma_sequence_extends(lhs: Seq<Pattern>, rhs: Seq<Pattern>, b: BindingView, fuel: nat)
    ensures
        unify_sequence(lhs, rhs, b, fuel) matches Some((_, b2)) ==> extends(b, b2),
    decreases fuel, lhs.len() + 1,
{
    if lhs.len() == rhs.len() && lhs.len() > 0 {
        lemma_unify_extends(lhs[0], rhs[0], b, fuel);
        match unify_inner(lhs[0], rhs[0], b, fuel) {
            None => {},
            Some((_, b2)) => {
                lemma_sequence_extends(lhs.drop_first(), rhs.drop_first(), b2, fuel);
            },
        }
    }
}

proof fn lemma_prefix_extends(lhs: Seq<Pattern>, rhs: Seq<Pattern>, b: BindingView, fuel: nat)
    ensures
        unify_prefix(lhs, rhs, b, fuel) matches Some((_, _, b2)) ==> extends(b, b2),
    decreases fuel, lhs.len() + 1,
{
    if lhs.len() > 0 && rhs.len() > 0 {
        lemma_unify_extends(lhs[0], rhs[0], b, fuel);
        match unify_inner(lhs[0], rhs[0], b, fuel) {
            None => {},
            Some((_, b2)) => {
                lemma_prefix_extends(lhs.drop_first(), rhs.drop_first(), b2, fuel);
            },
        }
    }
}

proof fn lemma_full_prefix_extends(lhs: Seq<Pattern>, rhs: Seq<Pattern>, b: BindingView, fuel: nat)
    ensures
        unify_full_prefix(lhs, rhs, b, fuel) matches Some((_, _, b2)) ==> extends(b, b2),
    decreases fuel, lhs.len() + 2,
{
    if lhs.len() <= rhs.len() {
        lemma_prefix_extends(lhs, rhs, b, fuel);
    }
}

proof fn lemma_lists_extend(
    litems: PatternList,
    ltail: Option<Pattern>,
    lage: Option<usize>,
    ritems: PatternList,
    rtail: Option<Pattern>,
    rage: Option<usize>,
    b: BindingView,
    fuel: nat,
)
    ensures
        unify_lists(litems, ltail, lage, ritems, rtail, rage, b, fuel) matches Some((_, b2)) ==> extends(b, b2),
    decreases fuel, 1nat,
{
    if fuel > 0 {
        let sub = (fuel - 1) as nat;
        let l = list_seq(list_aged(litems, lage));
        let r = list_seq(list_aged(ritems, rage));
        match (ltail, rtail) {
            (None, None) => {
                lemma_sequence_extends(l, r, b, sub);
            },
            (None, Some(_)) => {
                lemma_lists_extend(ritems, rtail, rage, litems, ltail, lage, b, sub);
            },
            (Some(tail), None) => match *tail.kind {
                PatternKind::Variable(variable) => {
                    lemma_full_prefix_extends(l, r, b, sub);
                    match unify_full_prefix(l, r, b, sub) {
                        None => {},
                        Some((output, rest, b2)) => match b2.get(set_current(variable, lage)) {
                            None => {},
                            Some(tail_pat) => {
                                lemma_unify_extends(tail_pat, crate::pattern::list_pattern(list_of_seq(rest), None), b2, fuel);
                            },
                        },
                    }
                },
                _ => {},
            },
            (Some(lt), Some(rt)) => {
                lemma_prefix_extends(l, r, b, sub);
                match unify_prefix(l, r, b, sub) {
                    None => {},
                    Some((unified, remaining, b2)) => {
                        if crate::pattern::list_len(litems) < crate::pattern::list_len(ritems) {
                            match list_checked(list_of_seq(remaining), Some(with_default_age(rt, rage))) {
                                None => {},
                                Some(other) => {
                                    lemma_unify_extends(with_default_age(lt, lage), other, b2, fuel);
                                },
                            }
                        } else {
                            match list_checked(list_of_seq(remaining), Some(with_default_age(lt, lage))) {
                                None => {},
                                Some(other) => {
                                    lemma_unify_extends(other, with_default_age(rt, rage), b2, fuel);
                                },
                            }
                        }
                    },
                }
            },
        }
    }
}

proof fn lemma_fields_extend(lhs: FieldList, rhs: FieldList, acc: FieldList, b: BindingView, fuel: nat)
    ensures
        unify_fields(lhs, rhs, acc, b, fuel) matches Some((_, b2)) ==> extends(b, b2),
    decreases fuel, crate::pattern::fields_len(lhs) + 1,
{
    match (lhs, rhs) {
        (FieldList::Cons(lk, lp, lrest), FieldList::Cons(_, rp, rrest)) => {
            lemma_unify_extends(lp, rp, b, fuel);
            match unify_inner(lp, rp, b, fuel) {
                None => {},
                Some((p, b2)) => {
                    lemma_fields_extend(*lrest, *rrest, crate::pattern::fields_insert(acc, lk, p), b2, fuel);
                },
            }
        },
        _ => {},
    }
}

proof fn lemma_fields_partial_extend(part: FieldList, full: FieldList, acc: FieldList, b: BindingView, fuel: nat)
    ensures
        unify_fields_partial(part, full, acc, b, fuel) matches Some((_, _, b2)) ==> extends(b, b2),
    decreases fuel, crate::pattern::fields_len(part) + 1,
{
    match part {
        FieldList::Nil => {},
        FieldList::Cons(k, p, rest) => match crate::pattern::fields_get(full, k) {
            None => {},
            Some(other) => {
                lemma_unify_extends(p, other, b, fuel);
                match unify_inner(p, other, b, fuel) {
                    None => {},
                    Some((u, b2)) => {
                        lemma_fields_partial_extend(*rest, crate::pattern::fields_remove(full, k), crate::pattern::fields_insert(acc, k, u), b2, fuel);
                    },
                }
            },
        },
    }
}

proof fn lemma_fields_difference_extends(lhs: FieldList, rhs: FieldList, b: BindingView, fuel: nat)
    ensures
        unify_fields_difference(lhs, rhs, b, fuel) matches Some((_, _, _, b2)) ==> extends(b, b2),
    decreases fuel, crate::pattern::fields_len(lhs) + crate::pattern::fields_len(rhs) + 1,
{
    match (lhs, rhs) {
        (FieldList::Cons(lk, lp, lrest), FieldList::Cons(rk, rp, rrest)) => {
            if lk == rk {
                lemma_unify_extends(lp, rp, b, fuel);
                match unify_inner(lp, rp, b, fuel) {
                    None => {},
                    Some((_, b2)) => {
                        lemma_fields_difference_extends(*lrest, *rrest, b2, fuel);
                    },
                }
            } else if lk.spec_index() < rk.spec_index() {
                lemma_fields_difference_extends(*lrest, rhs, b, fuel);
            } else {
                lemma_fields_difference_extends(lhs, *rrest, b, fuel);
            }
        },
        _ => {},
    }
}

proof fn lemma_records_extend(
    lfields: FieldList,
    ltail: Option<Pattern>,
    lage: Option<usize>,
    rfields: FieldList,
    rtail: Option<Pattern>,
    rage: Option<usize>,
    b: BindingView,
    fuel: nat,
)
    ensures
        unify_records(lfields, ltail, lage, rfields, rtail, rage, b, fuel) matches Some((_, b2)) ==> extends(b, b2),
    decreases fuel, 1nat,
{
    if fuel > 0 {
        let sub = (fuel - 1) as nat;
        let l = fields_aged(lfields, lage);
        let r = fields_aged(rfields, rage);
        match (ltail, rtail) {
            (None, None) => {
                lemma_fields_extend(l, r, FieldList::Nil, b, sub);
            },
            (None, Some(_)) => {
                lemma_records_extend(rfields, rtail, rage, lfields, ltail, lage, b, sub);
            },
            (Some(tail), None) => match *tail.kind {
                PatternKind::Variable(ident) => {
                    lemma_fields_partial_extend(l, r, FieldList::Nil, b, sub);
                    match unify_fields_partial(l, r, FieldList::Nil, b, sub) {
                        None => {},
                        Some((output, rest, b2)) => match b2.get(set_current(ident, lage)) {
                            None => {},
                            Some(tail_pat) => {
                                lemma_unify_extends(tail_pat, crate::pattern::record_pattern(rest, None), b2, fuel);
                            },
                        },
                    }
                },
                _ => {},
            },
            (Some(lt), Some(rt)) => {
                lemma_fields_difference_extends(l, r, b, sub);
                match unify_fields_difference(l, r, b, sub) {
                    None => {},
                    Some((intersection, lrest, rrest, b1)) => {
                        let shared = crate::binding::self_pattern(b1.next_fresh());
                        let b2 = b1.with_fresh();
                        lemma_with_fresh_extends(b1);
                        let complete = crate::pattern::record_pattern(crate::pattern::fields_extend(lrest, rrest), Some(shared));
                        match (record_checked(lrest, Some(with_default_age(lt, lage))), record_checked(rrest, Some(with_default_age(rt, rage)))) {
                            (Some(new_lt), Some(new_rt)) => {
                                lemma_unify_extends(new_lt, complete, b2, fuel);
                                match unify_inner(new_lt, complete, b2, fuel) {
                                    None => {},
                                    Some((_, b3)) => {
                                        lemma_unify_extends(new_rt, complete, b3, fuel);
                                    },
                                }
                            },
                            _ => {},
                        }
                    },
                }
            },
        }
    }
}


/// Unifying two patterns only adds to the binding: it evaluates the same generations, and
/// every variable that had an entry keeps one.
pub proof fn lemma_unify_patterns_extends(lhs: Pattern, rhs: Pattern, b: BindingView)
    ensures
        unify_patterns_spec(lhs, rhs, b, UNIFY_FUEL as nat) matches Some(b2) ==> extends(b, b2),
{
    lemma_unify_extends(
        with_default_age(lhs, Some(b.generation())),
        with_default_age(rhs, Some(b.generation())),
        b,
        UNIFY_FUEL as nat,
    );
}

// ------------------------------------------------------------------------------------
// What each kind of pattern unifies with
// ------------------------------------------------------------------------------------

/// The number of nested steps that unification of two patterns is given.
pub open spec fn full_fuel() -> nat {
    UNIFY_FUEL as nat
}

/// A literal unifies only with itself: two literals unify exactly when they denote the
/// same value, and then the binding is unchanged.
pub proof fn lemma_literals_unify_iff_equal(a: Literal, c: Literal, b: BindingView)
    ensures
        unify_patterns_spec(pattern_of(PatternKind::Literal(a)), pattern_of(PatternKind::Literal(c)), b, full_fuel())
            == (if literal_eq(a, c) { Some(b) } else { None }),
{
}

/// A structure unifies only with a structure of the same name.
pub proof fn lemma_structs_of_different_names_do_not_unify(n1: Atom, c1: Option<Pattern>, n2: Atom, c2: Option<Pattern>, b: BindingView)
    requires
        n1 != n2,
    ensures
        unify_patterns_spec(pattern_of(PatternKind::Struct(n1, c1)), pattern_of(PatternKind::Struct(n2, c2)), b, full_fuel()) is None,
{
    let g = Some(b.generation());
    let lhs = with_default_age(pattern_of(PatternKind::Struct(n1, c1)), g);
    let rhs = with_default_age(pattern_of(PatternKind::Struct(n2, c2)), g);
    let f = (full_fuel() - 1) as nat;
    assert(unify_structs(n1, c1, lhs.age, n2, c2, rhs.age, lhs, b, f) is None);
    assert(unify_inner(lhs, rhs, b, full_fuel()) == unify_structs(n1, c1, lhs.age, n2, c2, rhs.age, lhs, b, f));
}

/// A variable unifies with itself, leaving the binding unchanged.
pub proof fn lemma_variable_unifies_with_itself(v: Variable, b: BindingView)
    ensures
        unify_patterns_spec(self_pattern(v), self_pattern(v), b, full_fuel()) == Some(b),
{
}

/// The number of patterns of a list does not change when their ages are filled in.
pub proof fn lemma_list_aged_len(l: PatternList, age: Option<usize>)
    ensures
        list_seq(list_aged(l, age)).len() == list_len(l),
    decreases l,
{
    match l {
        PatternList::Nil => {},
        PatternList::Cons(_, rest) => {
            lemma_list_aged_len(*rest, age);
        },
    }
}

/// A structure unifies with a structure of the same name exactly when their contents
/// unify, and the binding is then the one the contents give.
pub proof fn lemma_structs_unify_by_contents(n: Atom, c1: Pattern, c2: Pattern, b: BindingView)
    ensures
        unify_patterns_spec(pattern_of(PatternKind::Struct(n, Some(c1))), pattern_of(PatternKind::Struct(n, Some(c2))), b, full_fuel())
            == match unify_inner(
                with_default_age(c1, Some(b.generation())),
                with_default_age(c2, Some(b.generation())),
                b,
                (full_fuel() - 1) as nat,
            ) {
                Some((_, b2)) => Some(b2),
                None => None,
            },
{
    let g = Some(b.generation());
    let lhs = with_default_age(pattern_of(PatternKind::Struct(n, Some(c1))), g);
    let rhs = with_default_age(pattern_of(PatternKind::Struct(n, Some(c2))), g);
    let f = (full_fuel() - 1) as nat;
    assert(lhs.age == g && rhs.age == g);
    assert(unify_inner(lhs, rhs, b, full_fuel()) == unify_structs(n, Some(c1), g, n, Some(c2), g, lhs, b, f));
}

/// Two unknown host values unify exactly when they are the same value, leaving the binding
/// unchanged.
pub proof fn lemma_any_unifies_by_identity(x: u64, y: u64, b: BindingView)
    ensures
        unify_patterns_spec(pattern_of(PatternKind::Any(x)), pattern_of(PatternKind::Any(y)), b, full_fuel())
            == (if x == y { Some(b) } else { None }),
{
}

/// Two complete lists of the same length unify exactly when their patterns unify in order,
/// and the binding is then the one that unifying them in order gives.
pub proof fn lemma_complete_lists_unify_item_by_item(a: PatternList, c: PatternList, b: BindingView)
    requires
        list_len(a) == list_len(c),
    ensures
        unify_patterns_spec(pattern_of(PatternKind::List(a, None)), pattern_of(PatternKind::List(c, None)), b, full_fuel())
            == match unify_sequence(
                list_seq(list_aged(a, Some(b.generation()))),
                list_seq(list_aged(c, Some(b.generation()))),
                b,
                (full_fuel() - 2) as nat,
            ) {
                Some((_, b2)) => Some(b2),
                None => None,
            },
{
    let g = Some(b.generation());
    let f = (full_fuel() - 1) as nat;
    let sub = (f - 1) as nat;
    match unify_sequence(list_seq(list_aged(a, g)), list_seq(list_aged(c, g)), b, sub) {
        Some((items, b2)) => {
            assert(unify_lists(a, None, g, c, None, g, b, f) == Some((crate::pattern::list_pattern(list_of_seq(items), None), b2)));
        },
        None => {
            assert(unify_lists(a, None, g, c, None, g, b, f) is None);
        },
    }
}

/// A complete list unifies only with a complete list of the same length.
pub proof fn lemma_lists_of_different_lengths_do_not_unify(a: PatternList, c: PatternList, b: BindingView)
    requires
        list_len(a) != list_len(c),
    ensures
        unify_patterns_spec(pattern_of(PatternKind::List(a, None)), pattern_of(PatternKind::List(c, None)), b, full_fuel()) is None,
{
    let g = Some(b.generation());
    lemma_list_aged_len(a, g);
    lemma_list_aged_len(c, g);
    let f = (full_fuel() - 1) as nat;
    let sub = (f - 1) as nat;
    assert(unify_sequence(list_seq(list_aged(a, g)), list_seq(list_aged(c, g)), b, sub) is None);
    assert(unify_lists(a, None, g, c, None, g, b, f) is None);
}

/// Whether a pattern is a value: it is neither a variable, nor a conjunction of patterns,
/// nor one of the checks `Bound` and `Unbound`, and no variable occurs in it.
pub open spec fn is_ground_value(p: Pattern) -> bool {
    &&& !(*p.kind is Variable)
    &&& !(*p.kind is All)
    &&& !(*p.kind is Bound)
    &&& !(*p.kind is Unbound)
    &&& kind_variables(*p.kind).len() == 0
}

/// Whether `v` lives in a known generation and is bound to itself in `b`: it has no value
/// yet.
pub open spec fn is_unbound_in(v: Variable, b: BindingView) -> bool {
    &&& v.generation is Some
    &&& lookup(b.entries, v) == Some(self_pattern(v))
}

/// A variable with no value unifies with any value, and afterwards stands for that value
/// (as placed in the current generation).
pub proof fn lemma_unbound_variable_takes_value(v: Variable, p: Pattern, b: BindingView)
    requires
        b.wf(),
        is_unbound_in(v, b),
        is_ground_value(p),
    ensures
        unify_patterns_spec(self_pattern(v), p, b, full_fuel()) matches Some(b2)
            && b2.wf()
            && lookup(b2.entries, v) == Some(with_default_age(p, Some(b.generation())))
            && b2.get(v) == Some(with_default_age(p, Some(b.generation()))),
{
    let g = Some(b.generation());
    let lhs = with_default_age(self_pattern(v), g);
    let rhs = with_default_age(p, g);
    assert(lhs == self_pattern(v));
    assert(b.get(v) == Some(self_pattern(v)));
    assert(pattern_variables(rhs) =~= Seq::<Variable>::empty());
    let f = (full_fuel() - 1) as nat;
    assert(!occurs(v, rhs, b, f));
    assert(unify_var_value(v, rhs, b, f) == Some((rhs, b.set(v, rhs))));
    assert(set_current(v, g) == v);
    crate::binding::lemma_set_then_lookup(b, v, rhs, v);
    let b2 = b.set(v, rhs);
    assert(lookup(b2.entries, v) == Some(rhs));
    assert(b2.get(v) == Some(rhs));
}

/// A variable that stands for a literal unifies with another literal exactly when the two
/// literals denote the same value.
pub proof fn lemma_bound_variable_keeps_value(v: Variable, l1: Literal, age: Option<usize>, l2: Literal, b: BindingView)
    requires
        b.wf(),
        v.generation is Some,
        lookup(b.entries, v) == Some(Pattern { kind: Box::new(PatternKind::Literal(l1)), age }),
    ensures
        unify_patterns_spec(self_pattern(v), pattern_of(PatternKind::Literal(l2)), b, full_fuel()) is Some
            <==> literal_eq(l1, l2),
{
    let g = Some(b.generation());
    let rhs = with_default_age(pattern_of(PatternKind::Literal(l2)), g);
    assert(b.get(v) == Some(Pattern { kind: Box::new(PatternKind::Literal(l1)), age }));
    let f = (full_fuel() - 1) as nat;
    assert(unify_var_value(v, rhs, b, f) == unify_inner(Pattern { kind: Box::new(PatternKind::Literal(l1)), age }, rhs, b, (f - 1) as nat));
}

/// A variable unifies with anything, but only once: once unification has given a variable
/// with no value a literal, it unifies afterwards only with literals of the same value.
pub proof fn lemma_variable_unifies_once(v: Variable, l1: Literal, l2: Literal, b: BindingView)
    requires
        b.wf(),
        is_unbound_in(v, b),
    ensures
        unify_patterns_spec(self_pattern(v), pattern_of(PatternKind::Literal(l1)), b, full_fuel()) matches Some(b2)
            && (unify_patterns_spec(self_pattern(v), pattern_of(PatternKind::Literal(l2)), b2, full_fuel()) is Some
                <==> literal_eq(l1, l2)),
{
    let p = pattern_of(PatternKind::Literal(l1));
    assert(kind_variables(*p.kind) =~= Seq::<Variable>::empty());
    lemma_unbound_variable_takes_value(v, p, b);
    let b2 = unify_patterns_spec(self_pattern(v), p, b, full_fuel()).unwrap();
    lemma_bound_variable_keeps_value(v, l1, Some(b.generation()), l2, b2);
}

/// The occurs check: a variable with no value does not unify with a list that holds it.
pub proof fn lemma_variable_does_not_unify_with_list_holding_it(v: Variable, b: BindingView)
    requires
        b.wf(),
        is_unbound_in(v, b),
    ensures
        unify_patterns_spec(
            self_pattern(v),
            pattern_of(PatternKind::List(PatternList::Cons(self_pattern(v), Box::new(PatternList::Nil)), None)),
            b,
            full_fuel(),
        ) is None,
{
    let g = Some(b.generation());
    let list = pattern_of(PatternKind::List(PatternList::Cons(self_pattern(v), Box::new(PatternList::Nil)), None));
    let rhs = with_default_age(list, g);
    assert(b.get(v) == Some(self_pattern(v)));
    assert(kind_variables(*self_pattern(v).kind) =~= seq![v]);
    assert(pattern_variables(self_pattern(v)) =~= seq![v]);
    assert(list_variables(PatternList::Nil) == Seq::<Variable>::empty());
    assert(list_variables(PatternList::Cons(self_pattern(v), Box::new(PatternList::Nil))) =~= seq![v]);
    assert(kind_variables(*rhs.kind) =~= seq![v]);
    assert(pattern_variables(rhs) =~= seq![v]);
    let f = (full_fuel() - 1) as nat;
    assert(occurs(v, rhs, b, f));
    assert(unify_var_value(v, rhs, b, f) is None);
}

/// `Bound` unifies with any value (a pattern that is neither a variable nor a
/// conjunction), leaving the binding unchanged.
pub proof fn lemma_bound_unifies_with_values(p: Pattern, b: BindingView)
    requires
        !(*p.kind is Variable),
        !(*p.kind is All),
    ensures
        unify_patterns_spec(pattern_of(PatternKind::Bound), p, b, full_fuel()) == Some(b),
{
}

/// `Bound` does not unify with a variable that has no value yet.
pub proof fn lemma_bound_rejects_unbound_variable(v: Variable, b: BindingView)
    requires
        b.wf(),
        is_unbound_in(v, b),
    ensures
        unify_patterns_spec(pattern_of(PatternKind::Bound), self_pattern(v), b, full_fuel()) is None,
{
    assert(b.get(v) == Some(self_pattern(v)));
    let g = Some(b.generation());
    let lhs = with_default_age(pattern_of(PatternKind::Bound), g);
    let f = (full_fuel() - 1) as nat;
    assert(unify_inner(self_pattern(v), lhs, b, f) is None);
}

/// `Unbound` unifies with a variable that has no value yet, leaving the binding unchanged.
pub proof fn lemma_unbound_accepts_unbound_variable(v: Variable, b: BindingView)
    requires
        b.wf(),
        is_unbound_in(v, b),
    ensures
        unify_patterns_spec(pattern_of(PatternKind::Unbound), self_pattern(v), b, full_fuel()) == Some(b),
{
    assert(b.get(v) == Some(self_pattern(v)));
    let g = Some(b.generation());
    let lhs = with_default_age(pattern_of(PatternKind::Unbound), g);
    let f = (full_fuel() - 1) as nat;
    assert(unify_inner(self_pattern(v), lhs, b, f) == Some((self_pattern(v), b)));
}

/// `Unbound` does not unify with a literal.
pub proof fn lemma_unbound_rejects_literal(l: Literal, b: BindingView)
    ensures
        unify_patterns_spec(pattern_of(PatternKind::Unbound), pattern_of(PatternKind::Literal(l)), b, full_fuel()) is None,
{
}


// ------------------------------------------------------------------------------------
// Entering and leaving a rule
// ------------------------------------------------------------------------------------

/// Unifying arguments with a rule's head across generations only adds to the binding.
pub proof fn lemma_unify_across_all_extends(source: Seq<Pattern>, destination: Seq<Pattern>, b: BindingView)
    ensures
        unify_across_all(source, destination, b) matches Some(b2) ==> extends(b, b2),
    decreases source.len(),
{
    if source.len() > 0 && destination.len() > 0 {
        lemma_unify_extends(
            with_default_age(source[0], Some(b.generations[b.generations.len() - 2])),
            with_default_age(destination[0], Some(b.generation())),
            b,
            UNIFY_FUEL as nat,
        );
        match unify_across(source[0], destination[0], b) {
            None => {},
            Some(b2) => {
                lemma_unify_across_all_extends(source.drop_first(), destination.drop_first(), b2);
            },
        }
    }
}

/// Binding variables to themselves gives each of them an entry, and keeps every entry.
pub proof fn lemma_bind_selves(entries: Seq<(Variable, Pattern)>, vars: Seq<Variable>, g: usize, w: Variable)
    ensures
        lookup(entries, w) is Some ==> lookup(bind_selves(entries, vars, g), w) is Some,
        (exists|i: int| 0 <= i < vars.len() && set_current(#[trigger] vars[i], Some(g)) == w)
            ==> lookup(bind_selves(entries, vars, g), w) is Some,
    decreases vars.len(),
{
    if vars.len() > 0 {
        let prefix = vars.drop_last();
        let v = set_current(vars.last(), Some(g));
        lemma_bind_selves(entries, prefix, g, w);
        lemma_bind_entry_keeps_entries(bind_selves(entries, prefix, g), v, crate::binding::self_pattern(v), w);
        lemma_lookup_some(crate::binding::bind_entry(bind_selves(entries, prefix, g), v, crate::binding::self_pattern(v)), w);
        if exists|i: int| 0 <= i < vars.len() && set_current(#[trigger] vars[i], Some(g)) == w {
            let i = choose|i: int| 0 <= i < vars.len() && set_current(#[trigger] vars[i], Some(g)) == w;
            if i < prefix.len() {
                assert(prefix[i] == vars[i]);
            } else {
                lemma_bind_entry_has(bind_selves(entries, prefix, g), v, crate::binding::self_pattern(v));
            }
        }
    }
}

proof fn lemma_bind_entry_has(entries: Seq<(Variable, Pattern)>, v: Variable, p: Pattern)
    ensures
        lookup(crate::binding::bind_entry(entries, v, p), v) is Some,
{
    let after = crate::binding::bind_entry(entries, v, p);
    lemma_lookup_some(after, v);
    match crate::binding::index_of(entries, v) {
        Some(k) => {
            lemma_index_of_in_range(entries, v);
            assert(after[k].0 == v);
        },
        None => {
            assert(after[entries.len() as int].0 == v);
        },
    }
}

/// Entering a rule: when the arguments unify with the head, the binding evaluates a new
/// generation on top of the old ones, numbered by the old next generation; the head's and
/// body's variables placed in it have entries; and ending that generation gives back the
/// generations evaluated before.
pub proof fn lemma_start_generation(b: BindingView, body_variables: Seq<Variable>, source: Seq<Pattern>, destination: Seq<Pattern>, v: Variable)
    requires
        b.next_generation < usize::MAX,
    ensures
        start_generation_spec(b, body_variables, source, destination) matches Some(b2) ==> {
            &&& b2.generations == b.generations.push(b.next_generation)
            &&& b2.generation() == b.next_generation
            &&& b2.generations.drop_last() == b.generations
            &&& b2.next_generation == b.next_generation + 1
            &&& (patterns_variables(destination) + body_variables).contains(v)
                ==> lookup(b2.entries, set_current(v, Some(b.next_generation))) is Some
        },
{
    let started = started_generation(b, body_variables, destination);
    let vars = patterns_variables(destination) + body_variables;
    lemma_unify_across_all_extends(source, destination, started);
    if vars.contains(v) {
        let i = choose|i: int| 0 <= i < vars.len() && vars[i] == v;
        assert(set_current(vars[i], Some(b.next_generation)) == set_current(v, Some(b.next_generation)));
        lemma_bind_selves(b.entries, vars, b.next_generation, set_current(v, Some(b.next_generation)));
    }
    assert(b.generations.push(b.next_generation).drop_last() =~= b.generations);
}


/// Whether `variable` occurs at `var`, one variable of a pattern: `var` is `variable`, or
/// has a generation and stands through `b` for `variable` or for a pattern in which
/// `variable` occurs within `fuel` further steps.
pub open spec fn occurs_at(variable: Variable, var: Variable, b: BindingView, fuel: nat) -> bool {
    if var == variable {
        true
    } else if var.generation is None {
        false
    } else {
        match b.get(var) {
            None => false,
            Some(p) => match *p.kind {
                PatternKind::Variable(v) => v == variable,
                _ => fuel > 0 && crate::unify::occurs_any(variable, pattern_variables(p), b, (fuel - 1) as nat),
            },
        }
    }
}

/// [`lemma_occurs_at_some_variable`] for a sequence of variables.
pub proof fn lemma_occurs_any_at(variable: Variable, vars: Seq<Variable>, b: BindingView, fuel: nat)
    ensures
        crate::unify::occurs_any(variable, vars, b, fuel)
            <==> exists|i: int| 0 <= i < vars.len() && occurs_at(variable, #[trigger] vars[i], b, fuel),
    decreases vars.len(),
{
    if vars.len() > 0 {
        lemma_occurs_any_at(variable, vars.drop_first(), b, fuel);
        if exists|i: int| 0 <= i < vars.len() && occurs_at(variable, #[trigger] vars[i], b, fuel) {
            let i = choose|i: int| 0 <= i < vars.len() && occurs_at(variable, #[trigger] vars[i], b, fuel);
            if i > 0 {
                assert(vars.drop_first()[i - 1] == vars[i]);
            }
        }
        if exists|i: int| 0 <= i < vars.drop_first().len() && occurs_at(variable, #[trigger] vars.drop_first()[i], b, fuel) {
            let i = choose|i: int| 0 <= i < vars.drop_first().len() && occurs_at(variable, #[trigger] vars.drop_first()[i], b, fuel);
            assert(vars[i + 1] == vars.drop_first()[i]);
        }
        assert(occurs_at(variable, vars[0], b, fuel) ==> crate::unify::occurs_any(variable, vars, b, fuel));
    }
}

/// The occurs check looks at each variable of the pattern: `variable` occurs in `pattern`
/// exactly when one of the pattern's variables is `variable`, or stands through the binding
/// for `variable` or for a pattern in which it occurs.
pub proof fn lemma_occurs_at_some_variable(variable: Variable, pattern: Pattern, b: BindingView, fuel: nat)
    ensures
        occurs(variable, pattern, b, fuel) <==> exists|u: Variable|
            pattern_variables(pattern).contains(u) && #[trigger] occurs_at(variable, u, b, fuel),
{
    let vars = pattern_variables(pattern);
    lemma_occurs_any_at(variable, vars, b, fuel);
    if occurs(variable, pattern, b, fuel) {
        let i = choose|i: int| 0 <= i < vars.len() && occurs_at(variable, #[trigger] vars[i], b, fuel);
        assert(vars.contains(vars[i]));
    }
    if exists|u: Variable| vars.contains(u) && #[trigger] occurs_at(variable, u, b, fuel) {
        let u = choose|u: Variable| vars.contains(u) && #[trigger] occurs_at(variable, u, b, fuel);
        let i = choose|i: int| 0 <= i < vars.len() && vars[i] == u;
        assert(occurs_at(variable, vars[i], b, fuel));
    }
}


/// Whether a pattern is a complete value: a literal, a host value, or a structure, list or
/// record made only of complete values, with no variable anywhere and no open rest.
pub open spec fn ground_term(p: Pattern) -> bool
    decreases p,
{
    ground_kind(*p.kind)
}

/// [`ground_term`] for a shape.
pub open spec fn ground_kind(k: PatternKind) -> bool
    decreases k,
{
    match k {
        PatternKind::Literal(..) => true,
        PatternKind::Any(..) => true,
        PatternKind::Struct(_, None) => true,
        PatternKind::Struct(_, Some(c)) => ground_term(c),
        PatternKind::List(items, None) => ground_list(items),
        PatternKind::Record(fields, None) => ground_fields(fields),
        _ => false,
    }
}

/// [`ground_term`] for each pattern of a list.
pub open spec fn ground_list(l: PatternList) -> bool
    decreases l,
{
    match l {
        PatternList::Nil => true,
        PatternList::Cons(p, rest) => ground_term(p) && ground_list(*rest),
    }
}

/// [`ground_term`] for each field of a record.
pub open spec fn ground_fields(f: FieldList) -> bool
    decreases f,
{
    match f {
        FieldList::Nil => true,
        FieldList::Cons(_, p, rest) => ground_term(p) && ground_fields(*rest),
    }
}

/// A complete value has no variables and is in applied form under any binding.
pub proof fn lemma_ground_term(p: Pattern, b: BindingView)
    requires
        ground_term(p),
    ensures
        kind_variables(*p.kind).len() == 0,
        pattern_variables(p).len() == 0,
        crate::apply::applied(b, p),
    decreases p,
{
    match *p.kind {
        PatternKind::Struct(_, Some(c)) => {
            lemma_ground_term(c, b);
        },
        PatternKind::List(items, _) => {
            lemma_ground_list(items, b);
            assert(crate::apply::applied_tail(b, None));
        },
        PatternKind::Record(fields, _) => {
            lemma_ground_fields(fields, b);
            assert(crate::apply::applied_tail(b, None));
        },
        _ => {},
    }
    assert(crate::apply::applied_kind(b, *p.kind));
}

proof fn lemma_ground_list(l: PatternList, b: BindingView)
    requires
        ground_list(l),
    ensures
        list_variables(l).len() == 0,
        crate::apply::applied_list(b, l),
    decreases l,
{
    if let PatternList::Cons(p, rest) = l {
        lemma_ground_term(p, b);
        lemma_ground_list(*rest, b);
    }
}

proof fn lemma_ground_fields(f: FieldList, b: BindingView)
    requires
        ground_fields(f),
    ensures
        crate::pattern::field_variables(f).len() == 0,
        crate::apply::applied_fields(b, f),
    decreases f,
{
    if let FieldList::Cons(_, p, rest) = f {
        lemma_ground_term(p, b);
        lemma_ground_fields(*rest, b);
    }
}

/// Unification makes the two sides equal: once a variable with no value has been unified
/// with a complete value, applying the new binding to the variable and applying it to the
/// value both give that value as a term (given as many steps as the value nests).
pub proof fn lemma_unified_variable_and_value_apply_alike(v: Variable, p: Pattern, b: BindingView, fuel: nat)
    requires
        b.wf(),
        is_unbound_in(v, b),
        ground_term(p),
        crate::apply::pattern_depth(p) < fuel,
    ensures
        unify_patterns_spec(self_pattern(v), p, b, full_fuel()) matches Some(b2)
            && crate::apply::apply_pattern(b2, self_pattern(v), fuel) matches Ok(x)
            && crate::apply::apply_pattern(b2, p, fuel) matches Ok(y)
            && crate::apply::same_term(x, p)
            && crate::apply::same_term(y, p),
{
    lemma_ground_term(p, b);
    assert(!(*p.kind is Variable) && !(*p.kind is All) && !(*p.kind is Bound) && !(*p.kind is Unbound)) by {
        assert(crate::apply::applied_kind(b, *p.kind));
        assert(ground_kind(*p.kind));
    }
    lemma_unbound_variable_takes_value(v, p, b);
    let b2 = unify_patterns_spec(self_pattern(v), p, b, full_fuel()).unwrap();
    let g = Some(b.generation());
    let rhs = with_default_age(p, g);
    assert(*rhs.kind == *p.kind);
    assert(rhs.age is Some);
    lemma_ground_term(p, b2);
    assert(crate::apply::applied(b2, rhs));
    assert(crate::apply::pattern_depth(rhs) == crate::apply::pattern_depth(p));
    let age = v.generation;
    assert(self_pattern(v).age == age);
    assert(set_current(v, age) == v);
    assert(with_default_age(rhs, age) == rhs);
    crate::apply::lemma_apply_applied(b2, rhs, (fuel - 1) as nat);
    assert(crate::apply::apply_pattern(b2, self_pattern(v), fuel)
        == crate::apply::apply_pattern(b2, rhs, (fuel - 1) as nat));
    let x = crate::apply::apply_pattern(b2, rhs, (fuel - 1) as nat)->Ok_0;
    assert(crate::apply::same_term(x, rhs));
    assert(crate::apply::same_term(x, p));
    crate::apply::lemma_apply_applied(b2, p, fuel);
}


/// Whether two complete values are equal: literals of the same value, the same host value,
/// structures of the same name with equal contents, lists of equal items in the same order,
/// records with the same field names in the same order and equal values.
pub open spec fn equal_values(p: Pattern, q: Pattern) -> bool
    decreases p,
{
    equal_value_kinds(*p.kind, *q.kind)
}

/// [`equal_values`] for shapes.
pub open spec fn equal_value_kinds(k1: PatternKind, k2: PatternKind) -> bool
    decreases k1,
{
    match k1 {
        PatternKind::Literal(a) => match k2 {
            PatternKind::Literal(c) => literal_eq(a, c),
            _ => false,
        },
        PatternKind::Any(x) => match k2 {
            PatternKind::Any(y) => x == y,
            _ => false,
        },
        PatternKind::Struct(n1, c1) => match k2 {
            PatternKind::Struct(n2, c2) => n1 == n2 && match c1 {
                None => c2 is None,
                Some(a) => match c2 {
                    Some(c) => equal_values(a, c),
                    None => false,
                },
            },
            _ => false,
        },
        PatternKind::List(i1, None) => match k2 {
            PatternKind::List(i2, None) => equal_value_lists(i1, i2),
            _ => false,
        },
        PatternKind::Record(f1, None) => match k2 {
            PatternKind::Record(f2, None) => equal_value_fields(f1, f2),
            _ => false,
        },
        _ => false,
    }
}

/// [`equal_values`] for lists, item by item.
pub open spec fn equal_value_lists(l1: PatternList, l2: PatternList) -> bool
    decreases l1,
{
    match l1 {
        PatternList::Nil => l2 is Nil,
        PatternList::Cons(p, r1) => match l2 {
            PatternList::Cons(q, r2) => equal_values(p, q) && equal_value_lists(*r1, *r2),
            PatternList::Nil => false,
        },
    }
}

/// [`equal_values`] for fields, name by name.
pub open spec fn equal_value_fields(f1: FieldList, f2: FieldList) -> bool
    decreases f1,
{
    match f1 {
        FieldList::Nil => f2 is Nil,
        FieldList::Cons(k1, p, r1) => match f2 {
            FieldList::Cons(k2, q, r2) => k1 == k2 && equal_values(p, q) && equal_value_fields(*r1, *r2),
            FieldList::Nil => false,
        },
    }
}

/// Giving a complete value a default age keeps its shape.
pub proof fn lemma_ground_default_age(p: Pattern, age: Option<usize>)
    requires
        ground_term(p),
    ensures
        *with_default_age(p, age).kind == *p.kind,
        ground_term(with_default_age(p, age)),
        crate::apply::pattern_depth(with_default_age(p, age)) == crate::apply::pattern_depth(p),
        forall|q: Pattern| equal_values(with_default_age(p, age), q) <==> equal_values(p, q),
        forall|q: Pattern| equal_values(q, with_default_age(p, age)) <==> equal_values(q, p),
{
    assert(ground_kind(*p.kind));
    assert forall|q: Pattern| equal_values(q, with_default_age(p, age)) <==> equal_values(q, p) by {
        assert(equal_values(q, with_default_age(p, age)) == equal_value_kinds(*q.kind, *with_default_age(p, age).kind));
    }
}

/// Equal lists of values have the same length; so do equal fields.
proof fn lemma_equal_value_lists_len(l1: PatternList, l2: PatternList)
    ensures
        equal_value_lists(l1, l2) ==> list_len(l1) == list_len(l2),
    decreases l1,
{
    if let PatternList::Cons(_, r1) = l1 {
        if let PatternList::Cons(_, r2) = l2 {
            lemma_equal_value_lists_len(*r1, *r2);
        }
    }
}

proof fn lemma_equal_value_fields_len(f1: FieldList, f2: FieldList)
    ensures
        equal_value_fields(f1, f2) ==> crate::pattern::fields_len(f1) == crate::pattern::fields_len(f2),
    decreases f1,
{
    if let FieldList::Cons(_, _, r1) = f1 {
        if let FieldList::Cons(_, _, r2) = f2 {
            lemma_equal_value_fields_len(*r1, *r2);
        }
    }
}

/// Complete values unify exactly when they are equal, and leave the binding as it was
/// (given twice as many steps as either nests).
pub proof fn lemma_values_unify_iff_equal(p: Pattern, q: Pattern, b: BindingView, fuel: nat)
    requires
        ground_term(p),
        ground_term(q),
        2 * crate::apply::pattern_depth(p) < fuel,
        2 * crate::apply::pattern_depth(q) < fuel,
    ensures
        unify_inner(p, q, b, fuel) is Some <==> equal_values(p, q),
        unify_inner(p, q, b, fuel) matches Some((_, b2)) ==> b2 == b,
    decreases fuel, 0nat,
{
    let f = (fuel - 1) as nat;
    let lk = *p.kind;
    let rk = *q.kind;
    assert(ground_kind(lk));
    assert(ground_kind(rk));
    match lk {
        PatternKind::Struct(n1, c1) => {
            if let PatternKind::Struct(n2, c2) = rk {
                assert(unify_inner(p, q, b, fuel) == unify_structs(n1, c1, p.age, n2, c2, q.age, p, b, f));
                assert(equal_values(p, q) == (n1 == n2 && match c1 {
                    None => c2 is None,
                    Some(a) => match c2 { Some(c) => equal_values(a, c), None => false },
                }));
                if n1 == n2 {
                    if let Some(a) = c1 {
                        if let Some(c) = c2 {
                            lemma_ground_default_age(a, p.age);
                            lemma_ground_default_age(c, q.age);
                            lemma_values_unify_iff_equal(with_default_age(a, p.age), with_default_age(c, q.age), b, f);
                            assert(equal_values(with_default_age(a, p.age), with_default_age(c, q.age)) == equal_values(a, c));
                        }
                    }
                }
            }
        },
        PatternKind::List(i1, _) => {
            if let PatternKind::List(i2, _) = rk {
                let sub = (f - 1) as nat;
                lemma_values_unify_sequence(i1, i2, p.age, q.age, b, sub);
                lemma_equal_value_lists_len(i1, i2);
                lemma_list_aged_len(i1, p.age);
                lemma_list_aged_len(i2, q.age);
                if let Some((items, b2)) = unify_sequence(list_seq(list_aged(i1, p.age)), list_seq(list_aged(i2, q.age)), b, sub) {
                    assert(unify_lists(i1, None, p.age, i2, None, q.age, b, f) == Some((crate::pattern::list_pattern(list_of_seq(items), None), b2)));
                }
            }
        },
        PatternKind::Record(f1, _) => {
            if let PatternKind::Record(f2, _) = rk {
                assert(unify_inner(p, q, b, fuel) == unify_records(f1, None, p.age, f2, None, q.age, b, f));
                assert(equal_values(p, q) == equal_value_fields(f1, f2));
                let sub = (f - 1) as nat;
                let l = fields_aged(f1, p.age);
                let r = fields_aged(f2, q.age);
                lemma_aged_fields(f1, p.age);
                lemma_aged_fields(f2, q.age);
                lemma_aged_fields_equal(f1, f2, p.age, q.age);
                lemma_values_unify_fields(l, r, FieldList::Nil, b, sub);
                lemma_equal_value_fields_len(l, r);
                lemma_equal_value_fields_len(f1, f2);
                if crate::pattern::fields_len(l) == crate::pattern::fields_len(r) {
                    if let Some((fields, b2)) = unify_fields(l, r, FieldList::Nil, b, sub) {
                        assert(unify_records(f1, None, p.age, f2, None, q.age, b, f)
                            == Some((crate::pattern::record_pattern(fields, None), b2)));
                    } else {
                        assert(unify_records(f1, None, p.age, f2, None, q.age, b, f) is None);
                    }
                } else {
                    assert(unify_records(f1, None, p.age, f2, None, q.age, b, f) is None);
                }
            }
        },
        _ => {},
    }
}

/// Ages filled into the fields of a complete record keep them complete, as deep and as
/// many.
proof fn lemma_aged_fields(f: FieldList, age: Option<usize>)
    requires
        ground_fields(f),
    ensures
        ground_fields(fields_aged(f, age)),
        crate::apply::fields_depth(fields_aged(f, age)) == crate::apply::fields_depth(f),
        crate::pattern::fields_len(fields_aged(f, age)) == crate::pattern::fields_len(f),
    decreases f,
{
    if let FieldList::Cons(k, p, rest) = f {
        lemma_ground_default_age(p, age);
        lemma_aged_fields(*rest, age);
    }
}

/// Ages filled into the fields of two complete records leave them equal exactly when they
/// were.
proof fn lemma_aged_fields_equal(f: FieldList, g: FieldList, a1: Option<usize>, a2: Option<usize>)
    requires
        ground_fields(f),
        ground_fields(g),
    ensures
        equal_value_fields(fields_aged(f, a1), fields_aged(g, a2)) <==> equal_value_fields(f, g),
    decreases f,
{
    if let FieldList::Cons(k, p, rest) = f {
        if let FieldList::Cons(k2, q, rest2) = g {
            lemma_ground_default_age(p, a1);
            lemma_ground_default_age(q, a2);
            assert(equal_values(with_default_age(p, a1), with_default_age(q, a2)) == equal_values(p, q));
            lemma_aged_fields_equal(*rest, *rest2, a1, a2);
        }
    }
}

/// [`lemma_values_unify_iff_equal`] for the items of two complete lists, at their ages.
proof fn lemma_values_unify_sequence(l1: PatternList, l2: PatternList, a1: Option<usize>, a2: Option<usize>, b: BindingView, fuel: nat)
    requires
        ground_list(l1),
        ground_list(l2),
        2 * crate::apply::list_depth(l1) < fuel,
        2 * crate::apply::list_depth(l2) < fuel,
    ensures
        unify_sequence(list_seq(list_aged(l1, a1)), list_seq(list_aged(l2, a2)), b, fuel) is Some
            <==> equal_value_lists(l1, l2),
        unify_sequence(list_seq(list_aged(l1, a1)), list_seq(list_aged(l2, a2)), b, fuel) matches Some((_, b2)) ==> b2 == b,
    decreases fuel, list_len(l1) + 1,
{
    let s1 = list_seq(list_aged(l1, a1));
    let s2 = list_seq(list_aged(l2, a2));
    lemma_list_aged_len(l1, a1);
    lemma_list_aged_len(l2, a2);
    lemma_equal_value_lists_len(l1, l2);
    if let PatternList::Cons(p, r1) = l1 {
        if let PatternList::Cons(q, r2) = l2 {
            lemma_ground_default_age(p, a1);
            lemma_ground_default_age(q, a2);
            assert(s1[0] == with_default_age(p, a1));
            assert(s2[0] == with_default_age(q, a2));
            lemma_values_unify_iff_equal(with_default_age(p, a1), with_default_age(q, a2), b, fuel);
            assert(equal_values(with_default_age(p, a1), with_default_age(q, a2)) == equal_values(p, q));
            lemma_values_unify_sequence(*r1, *r2, a1, a2, b, fuel);
            assert(s1.drop_first() =~= list_seq(list_aged(*r1, a1)));
            assert(s2.drop_first() =~= list_seq(list_aged(*r2, a2)));
        }
    }
}

/// [`lemma_values_unify_iff_equal`] for the fields of two complete records.
proof fn lemma_values_unify_fields(l: FieldList, r: FieldList, acc: FieldList, b: BindingView, fuel: nat)
    requires
        ground_fields(l),
        ground_fields(r),
        2 * crate::apply::fields_depth(l) < fuel,
        2 * crate::apply::fields_depth(r) < fuel,
    ensures
        unify_fields(l, r, acc, b, fuel) is Some <==> equal_value_fields(l, r),
        unify_fields(l, r, acc, b, fuel) matches Some((_, b2)) ==> b2 == b,
    decreases fuel, crate::pattern::fields_len(l) + 1,
{
    if let FieldList::Cons(lk, lp, lrest) = l {
        if let FieldList::Cons(rk, rp, rrest) = r {
            if lk == rk {
                lemma_values_unify_iff_equal(lp, rp, b, fuel);
                if let Some((p, _)) = unify_inner(lp, rp, b, fuel) {
                    lemma_values_unify_fields(*lrest, *rrest, crate::pattern::fields_insert(acc, lk, p), b, fuel);
                }
            }
        }
    }
}

/// Unifying complete values decides whether they are equal: it succeeds, leaving the
/// binding as it was, exactly when the two values are equal (given twice as many steps as
/// either nests).
pub proof fn lemma_values_unify_exactly_when_equal(p: Pattern, q: Pattern, b: BindingView, fuel: nat)
    requires
        ground_term(p),
        ground_term(q),
        2 * crate::apply::pattern_depth(p) < fuel,
        2 * crate::apply::pattern_depth(q) < fuel,
    ensures
        unify_patterns_spec(p, q, b, fuel) == (if equal_values(p, q) { Some(b) } else { None::<BindingView> }),
{
    let g = Some(b.generation());
    lemma_ground_default_age(p, g);
    lemma_ground_default_age(q, g);
    lemma_values_unify_iff_equal(with_default_age(p, g), with_default_age(q, g), b, fuel);
    assert(equal_values(with_default_age(p, g), with_default_age(q, g)) == equal_values(p, q));
}

/// Equality of values does not depend on the order in which the two are taken.
pub proof fn lemma_equal_values_symmetric(p: Pattern, q: Pattern)
    ensures
        equal_values(p, q) == equal_values(q, p),
    decreases p,
{
    match *p.kind {
        PatternKind::Struct(_, Some(a)) => {
            if let PatternKind::Struct(_, Some(c)) = *q.kind {
                lemma_equal_values_symmetric(a, c);
            }
        },
        PatternKind::List(i1, None) => {
            if let PatternKind::List(i2, None) = *q.kind {
                lemma_equal_value_lists_symmetric(i1, i2);
            }
        },
        PatternKind::Record(f1, None) => {
            if let PatternKind::Record(f2, None) = *q.kind {
                lemma_equal_value_fields_symmetric(f1, f2);
            }
        },
        PatternKind::Literal(a) => {
            if let PatternKind::Literal(c) = *q.kind {
                if let Literal::Rational(n1, d1) = a {
                    if let Literal::Rational(n2, d2) = c {
                        assert(n1 * d2 == d2 * n1) by (nonlinear_arith);
                        assert(n2 * d1 == d1 * n2) by (nonlinear_arith);
                    }
                }
            }
        },
        _ => {},
    }
}

proof fn lemma_equal_value_lists_symmetric(l1: PatternList, l2: PatternList)
    ensures
        equal_value_lists(l1, l2) == equal_value_lists(l2, l1),
    decreases l1,
{
    if let PatternList::Cons(p, r1) = l1 {
        if let PatternList::Cons(q, r2) = l2 {
            lemma_equal_values_symmetric(p, q);
            lemma_equal_value_lists_symmetric(*r1, *r2);
        }
    }
}

proof fn lemma_equal_value_fields_symmetric(f1: FieldList, f2: FieldList)
    ensures
        equal_value_fields(f1, f2) == equal_value_fields(f2, f1),
    decreases f1,
{
    if let FieldList::Cons(_, p, r1) = f1 {
        if let FieldList::Cons(_, q, r2) = f2 {
            lemma_equal_values_symmetric(p, q);
            lemma_equal_value_fields_symmetric(*r1, *r2);
        }
    }
}

/// Unifying complete values succeeds the same whichever side each stands on.
pub proof fn lemma_values_unify_symmetrically(p: Pattern, q: Pattern, b: BindingView, fuel: nat)
    requires
        ground_term(p),
        ground_term(q),
        2 * crate::apply::pattern_depth(p) < fuel,
        2 * crate::apply::pattern_depth(q) < fuel,
    ensures
        unify_patterns_spec(p, q, b, fuel) == unify_patterns_spec(q, p, b, fuel),
{
    lemma_values_unify_exactly_when_equal(p, q, b, fuel);
    lemma_values_unify_exactly_when_equal(q, p, b, fuel);
    lemma_equal_values_symmetric(p, q);
}

/// Unification makes the two sides equal: once two different variables with no value have
/// been unified, applying the new binding to either gives the same variable, the earlier of
/// the two in the order of variables.
pub proof fn lemma_unified_variables_apply_alike(u: Variable, w: Variable, b: BindingView, fuel: nat)
    requires
        b.wf(),
        is_unbound_in(u, b),
        is_unbound_in(w, b),
        u != w,
        fuel >= 2,
    ensures
        unify_patterns_spec(self_pattern(u), self_pattern(w), b, full_fuel()) matches Some(b2)
            && crate::apply::apply_pattern(b2, self_pattern(u), fuel) == crate::apply::apply_pattern(b2, self_pattern(w), fuel)
            && crate::apply::apply_pattern(b2, self_pattern(u), fuel)
                == Ok::<Pattern, crate::apply::BindingError>(self_pattern(if crate::variable::variable_lt(u, w) { u } else { w })),
{
    let g = Some(b.generation());
    assert(with_default_age(self_pattern(u), g) == self_pattern(u));
    assert(with_default_age(self_pattern(w), g) == self_pattern(w));
    assert(b.get(u) == Some(self_pattern(u)));
    assert(b.get(w) == Some(self_pattern(w)));
    let x = if crate::variable::variable_lt(u, w) { u } else { w };
    let p = self_pattern(x);
    let f = (full_fuel() - 1) as nat;
    let b1 = b.set(u, p);
    let b2 = b1.set(w, p);
    assert(unify_var_var(u, w, b, f) == Some((p, b2)));
    assert(unify_inner(self_pattern(u), self_pattern(w), b, full_fuel()) == Some((p, b2)));
    assert(set_current(u, g) == u);
    assert(set_current(w, g) == w);
    crate::binding::lemma_set_then_lookup(b, u, p, w);
    crate::binding::lemma_set_then_lookup(b1, w, p, u);
    assert(lookup(b2.entries, w) == Some(p));
    assert(lookup(b2.entries, u) == Some(p));
    assert(set_current(u, u.generation) == u);
    assert(set_current(w, w.generation) == w);
    assert(set_current(x, x.generation) == x);
    let h = (fuel - 1) as nat;
    assert(with_default_age(p, u.generation) == p);
    assert(with_default_age(p, w.generation) == p);
    assert(crate::apply::apply_pattern(b2, p, h) == Ok::<Pattern, crate::apply::BindingError>(p));
    assert(crate::apply::apply_pattern(b2, self_pattern(u), fuel) == Ok::<Pattern, crate::apply::BindingError>(p));
    assert(crate::apply::apply_pattern(b2, self_pattern(w), fuel) == Ok::<Pattern, crate::apply::BindingError>(p));
}

/// Unifying a variable with no value and a value gives the same binding whichever side
/// each stands on.
pub proof fn lemma_variable_and_value_unify_symmetrically(v: Variable, p: Pattern, b: BindingView)
    requires
        b.wf(),
        is_unbound_in(v, b),
        is_ground_value(p),
    ensures
        unify_patterns_spec(p, self_pattern(v), b, full_fuel()) == unify_patterns_spec(self_pattern(v), p, b, full_fuel()),
        unify_patterns_spec(self_pattern(v), p, b, full_fuel()) == Some(b.set(v, with_default_age(p, Some(b.generation())))),
{
    let g = Some(b.generation());
    let lhs = with_default_age(self_pattern(v), g);
    let rhs = with_default_age(p, g);
    assert(lhs == self_pattern(v));
    assert(b.get(v) == Some(self_pattern(v)));
    assert(pattern_variables(rhs) =~= Seq::<Variable>::empty());
    let f = (full_fuel() - 1) as nat;
    let f2 = (full_fuel() - 2) as nat;
    assert(!occurs(v, rhs, b, f));
    assert(!occurs(v, rhs, b, f2));
    assert(unify_var_value(v, rhs, b, f) == Some((rhs, b.set(v, rhs))));
    assert(unify_var_value(v, rhs, b, f2) == Some((rhs, b.set(v, rhs))));
    assert(unify_inner(lhs, rhs, b, f) == Some((rhs, b.set(v, rhs))));
    assert(unify_inner(lhs, rhs, b, full_fuel()) == Some((rhs, b.set(v, rhs))));
    assert(unify_inner(rhs, lhs, b, full_fuel()) == unify_inner(lhs, rhs, b, f));
}

/// Giving a variable with no value a value changes no other variable: every other
/// variable keeps the entry it had.
pub proof fn lemma_value_binding_keeps_others(v: Variable, p: Pattern, b: BindingView, w: Variable)
    requires
        b.wf(),
        is_unbound_in(v, b),
        is_ground_value(p),
        w != v,
    ensures
        unify_patterns_spec(self_pattern(v), p, b, full_fuel()) matches Some(b2)
            && lookup(b2.entries, w) == lookup(b.entries, w),
{
    let g = Some(b.generation());
    let rhs = with_default_age(p, g);
    lemma_variable_and_value_unify_symmetrically(v, p, b);
    assert(set_current(v, g) == v);
    crate::binding::lemma_set_then_lookup(b, v, rhs, w);
    assert(unify_patterns_spec(self_pattern(v), p, b, full_fuel()) == Some(b.set(v, rhs)));
}

// ------------------------------------------------------------------------------------
// A variable unifies with anything, but only once
// ------------------------------------------------------------------------------------

/// Whether a pattern can stand as the value of a variable: it is not itself a variable, nor
/// a conjunction of patterns, nor one of the checks `Bound` and `Unbound`. Its parts may be
/// anything, variables included.
pub open spec fn is_value_pattern(p: Pattern) -> bool {
    &&& !(*p.kind is Variable)
    &&& !(*p.kind is All)
    &&& !(*p.kind is Bound)
    &&& !(*p.kind is Unbound)
}

/// Whether `v` does not occur in `p` (placed in the current generation of `b`), following
/// the values of `p`'s variables as far as unification looks.
pub open spec fn does_not_occur(v: Variable, p: Pattern, b: BindingView) -> bool {
    !occurs(v, with_default_age(p, Some(b.generation())), b, (full_fuel() - 1) as nat)
}

/// A variable unifies with anything: a variable with no value unifies with any pattern that
/// can be a value and in which it does not occur, whatever variables that pattern holds;
/// it is then bound to the pattern, placed in the current generation.
pub proof fn lemma_unbound_variable_takes_any_value(v: Variable, p: Pattern, b: BindingView)
    requires
        b.wf(),
        is_unbound_in(v, b),
        is_value_pattern(p),
        does_not_occur(v, p, b),
    ensures
        unify_patterns_spec(self_pattern(v), p, b, full_fuel()) == Some(b.set(v, with_default_age(p, Some(b.generation())))),
        b.set(v, with_default_age(p, Some(b.generation()))).wf(),
        lookup(b.set(v, with_default_age(p, Some(b.generation()))).entries, v) == Some(with_default_age(p, Some(b.generation()))),
{
    let g = Some(b.generation());
    let rhs = with_default_age(p, g);
    assert(with_default_age(self_pattern(v), g) == self_pattern(v));
    assert(b.get(v) == Some(self_pattern(v)));
    let f = (full_fuel() - 1) as nat;
    assert(unify_var_value(v, rhs, b, f) == Some((rhs, b.set(v, rhs))));
    assert(unify_inner(self_pattern(v), rhs, b, full_fuel()) == Some((rhs, b.set(v, rhs))));
    assert(set_current(v, g) == v);
    crate::binding::lemma_set_then_lookup(b, v, rhs, v);
}

/// ... but only once: once a variable with no value has been given a value, unifying the
/// variable is unifying that value. With any pattern that is not a variable or a
/// conjunction, the variable unifies, with one step more, exactly as its value does.
pub proof fn lemma_bound_variable_unifies_as_its_value(v: Variable, p: Pattern, b: BindingView, q: Pattern, fuel: nat)
    requires
        b.wf(),
        is_unbound_in(v, b),
        is_value_pattern(p),
        does_not_occur(v, p, b),
        !(*q.kind is Variable),
        !(*q.kind is All),
        fuel > 0,
    ensures
        unify_patterns_spec(self_pattern(v), p, b, full_fuel()) matches Some(b2)
            && unify_patterns_spec(self_pattern(v), q, b2, fuel + 1) == unify_patterns_spec(p, q, b2, fuel),
{
    lemma_unbound_variable_takes_any_value(v, p, b);
    let g = Some(b.generation());
    let pv = with_default_age(p, g);
    let b2 = b.set(v, pv);
    assert(b2.generation() == b.generation());
    let qv = with_default_age(q, g);
    assert(with_default_age(self_pattern(v), g) == self_pattern(v));
    assert(with_default_age(pv, g) == pv);
    assert(*pv.kind == *p.kind);
    assert(*qv.kind == *q.kind);
    assert(b2.get(v) == Some(pv));
    let f = fuel as nat;
    if *q.kind is Bound {
        assert(unify_inner(self_pattern(v), qv, b2, fuel + 1) == Some((pv, b2)));
        assert(unify_inner(pv, qv, b2, fuel) == Some((pv, b2)));
    } else if *q.kind is Unbound {
        assert(unify_inner(self_pattern(v), qv, b2, fuel + 1) is None);
        assert(unify_inner(pv, qv, b2, fuel) is None);
    } else {
        assert(unify_var_value(v, qv, b2, fuel) == unify_inner(pv, qv, b2, fuel));
        assert(unify_inner(self_pattern(v), qv, b2, fuel + 1) == unify_inner(pv, qv, b2, fuel));
    }
}

/// Unification makes the two sides equal: once a variable with no value has been unified
/// with a pattern that can be a value, applying the new binding to the variable is applying
/// it to that pattern (placed in the current generation), with one step more; and with the
/// same steps, whenever the pattern does not run out of them.
pub proof fn lemma_variable_and_pattern_apply_alike(v: Variable, p: Pattern, b: BindingView, fuel: nat)
    requires
        b.wf(),
        is_unbound_in(v, b),
        is_value_pattern(p),
        does_not_occur(v, p, b),
    ensures
        unify_patterns_spec(self_pattern(v), p, b, full_fuel()) matches Some(b2)
            && crate::apply::apply_pattern(b2, self_pattern(v), fuel + 1)
                == crate::apply::apply_pattern(b2, with_default_age(p, Some(b.generation())), fuel)
            && (crate::apply::apply_pattern(b2, with_default_age(p, Some(b.generation())), fuel)
                    != Err::<Pattern, crate::apply::BindingError>(crate::apply::BindingError::Exhausted)
                ==> crate::apply::apply_pattern(b2, self_pattern(v), fuel + 1)
                    == crate::apply::apply_pattern(b2, with_default_age(p, Some(b.generation())), fuel + 1)),
{
    lemma_unbound_variable_takes_any_value(v, p, b);
    let g = Some(b.generation());
    let pv = with_default_age(p, g);
    let b2 = b.set(v, pv);
    assert(set_current(v, v.generation) == v);
    assert(self_pattern(v).age == v.generation);
    assert(with_default_age(pv, v.generation) == pv);
    assert(*pv.kind != PatternKind::Variable(v));
    assert(crate::apply::apply_pattern(b2, self_pattern(v), fuel + 1) == crate::apply::apply_pattern(b2, pv, fuel));
    if crate::apply::apply_pattern(b2, pv, fuel) != Err::<Pattern, crate::apply::BindingError>(crate::apply::BindingError::Exhausted) {
        crate::apply::lemma_apply_fuel(b2, pv, fuel, fuel + 1);
    }
}

/// A literal unifies only with itself: with a pattern of any other shape, other than a
/// variable, a conjunction or the check `Bound`, it does not unify.
pub proof fn lemma_literal_unifies_only_with_literals(l: Literal, q: Pattern, b: BindingView, fuel: nat)
    requires
        !(*q.kind is Literal),
        !(*q.kind is Variable),
        !(*q.kind is All),
        !(*q.kind is Bound),
    ensures
        unify_patterns_spec(pattern_of(PatternKind::Literal(l)), q, b, fuel) is None,
{
    let g = Some(b.generation());
    assert(*with_default_age(q, g).kind == *q.kind);
}

/// Whether `v` lives in a known generation and has in `b` a complete value, `e`.
pub open spec fn has_value_in(v: Variable, e: Pattern, b: BindingView) -> bool {
    &&& v.generation is Some
    &&& lookup(b.entries, v) == Some(e)
    &&& ground_term(e)
}

/// A variable keeps the value it has: a variable with a complete value unifies with a
/// complete value exactly when the two values are equal, and the binding is then left as it
/// was; applying it to the variable gives the variable's value, and to the other side that
/// side, as terms (given as many steps as the values nest).
pub proof fn lemma_valued_variable_unifies_with_equal_value(v: Variable, e: Pattern, q: Pattern, b: BindingView, fuel: nat)
    requires
        b.wf(),
        has_value_in(v, e, b),
        ground_term(q),
        2 * crate::apply::pattern_depth(e) + 2 < full_fuel(),
        2 * crate::apply::pattern_depth(q) + 2 < full_fuel(),
        crate::apply::pattern_depth(e) < fuel,
        crate::apply::pattern_depth(q) <= fuel,
    ensures
        unify_patterns_spec(self_pattern(v), q, b, full_fuel()) == (if equal_values(e, q) { Some(b) } else { None::<BindingView> }),
        crate::apply::apply_pattern(b, self_pattern(v), fuel) matches Ok(x) && crate::apply::same_term(x, e),
        crate::apply::apply_pattern(b, q, fuel) matches Ok(y) && crate::apply::same_term(y, q),
{
    let g = Some(b.generation());
    let qv = with_default_age(q, g);
    lemma_ground_term(e, b);
    lemma_ground_term(q, b);
    lemma_ground_default_age(q, g);
    assert(ground_kind(*e.kind));
    assert(!(*e.kind is Variable));
    assert(with_default_age(self_pattern(v), g) == self_pattern(v));
    assert(b.get(v) == Some(e));
    let f = (full_fuel() - 1) as nat;
    assert(ground_kind(*q.kind));
    assert(unify_var_value(v, qv, b, f) == unify_inner(e, qv, b, f));
    assert(unify_inner(self_pattern(v), qv, b, full_fuel()) == unify_inner(e, qv, b, f));
    lemma_values_unify_iff_equal(e, qv, b, f);
    assert(equal_values(e, qv) == equal_values(e, q));
    // Applying the binding.
    assert(set_current(v, v.generation) == v);
    assert(self_pattern(v).age == v.generation);
    let h = (fuel - 1) as nat;
    let ev = with_default_age(e, v.generation);
    lemma_ground_default_age(e, v.generation);
    lemma_ground_term(ev, b);
    assert(crate::apply::apply_pattern(b, self_pattern(v), fuel) == crate::apply::apply_pattern(b, ev, h));
    crate::apply::lemma_apply_applied(b, ev, h);
    let x = crate::apply::apply_pattern(b, ev, h)->Ok_0;
    assert(crate::apply::same_term(x, ev) == crate::apply::same_kind(*x.kind, *ev.kind));
    assert(crate::apply::same_term(x, e));
    crate::apply::lemma_apply_applied(b, q, fuel);
}

/// Unification makes the two sides equal: a variable with no value unified with a variable
/// that has a complete value takes that value, and applying the new binding to either
/// variable gives that value, as terms (given as many steps as the value nests).
pub proof fn lemma_unbound_and_valued_variables_apply_alike(u: Variable, w: Variable, e: Pattern, b: BindingView, fuel: nat)
    requires
        b.wf(),
        is_unbound_in(u, b),
        has_value_in(w, e, b),
        crate::apply::pattern_depth(e) < fuel,
    ensures
        unify_patterns_spec(self_pattern(u), self_pattern(w), b, full_fuel()) matches Some(b2)
            && crate::apply::apply_pattern(b2, self_pattern(u), fuel + 1) matches Ok(x)
            && crate::apply::apply_pattern(b2, self_pattern(w), fuel + 1) matches Ok(y)
            && crate::apply::same_term(x, e)
            && crate::apply::same_term(y, e),
{
    let g = Some(b.generation());
    lemma_ground_term(e, b);
    assert(ground_kind(*e.kind));
    assert(!(*e.kind is Variable));
    assert(u != w);
    assert(with_default_age(self_pattern(u), g) == self_pattern(u));
    assert(with_default_age(self_pattern(w), g) == self_pattern(w));
    assert(b.get(u) == Some(self_pattern(u)));
    assert(b.get(w) == Some(e));
    let f = (full_fuel() - 1) as nat;
    let f2 = (f - 1) as nat;
    assert(pattern_variables(e).len() == 0);
    assert(pattern_variables(e) =~= Seq::<Variable>::empty());
    assert(!occurs(u, e, b, f2));
    let b1 = b.set(u, e);
    assert(unify_var_value(u, e, b, f2) == Some((e, b1)));
    assert(unify_inner(self_pattern(u), e, b, f) == Some((e, b1)));
    let b2 = b1.set(u, e).set(w, e);
    assert(unify_var_var(u, w, b, f) == Some((e, b2)));
    assert(unify_inner(self_pattern(u), self_pattern(w), b, full_fuel()) == Some((e, b2)));
    assert(set_current(u, g) == u);
    assert(set_current(w, g) == w);
    crate::binding::lemma_set_then_lookup(b, u, e, w);
    let b11 = b1.set(u, e);
    crate::binding::lemma_set_then_lookup(b1, u, e, w);
    crate::binding::lemma_set_then_lookup(b11, w, e, u);
    assert(lookup(b2.entries, u) == Some(e));
    assert(lookup(b2.entries, w) == Some(e));
    assert(set_current(u, u.generation) == u);
    assert(set_current(w, w.generation) == w);
    let eu = with_default_age(e, u.generation);
    let ew = with_default_age(e, w.generation);
    lemma_ground_default_age(e, u.generation);
    lemma_ground_default_age(e, w.generation);
    lemma_ground_term(eu, b2);
    lemma_ground_term(ew, b2);
    assert(crate::apply::apply_pattern(b2, self_pattern(u), fuel + 1) == crate::apply::apply_pattern(b2, eu, fuel));
    assert(crate::apply::apply_pattern(b2, self_pattern(w), fuel + 1) == crate::apply::apply_pattern(b2, ew, fuel));
    crate::apply::lemma_apply_applied(b2, eu, fuel);
    crate::apply::lemma_apply_applied(b2, ew, fuel);
    let x = crate::apply::apply_pattern(b2, eu, fuel)->Ok_0;
    let y = crate::apply::apply_pattern(b2, ew, fuel)->Ok_0;
    assert(crate::apply::same_term(x, eu) == crate::apply::same_kind(*x.kind, *eu.kind));
    assert(crate::apply::same_term(y, ew) == crate::apply::same_kind(*y.kind, *ew.kind));
}

/// Two variables with complete values unify exactly when their values are equal; and
/// afterwards, when they live in the same generation, applying the new binding to either
/// gives the same result.
pub proof fn lemma_valued_variables_unify_and_apply_alike(u: Variable, e1: Pattern, w: Variable, e2: Pattern, b: BindingView, fuel: nat)
    requires
        b.wf(),
        has_value_in(u, e1, b),
        has_value_in(w, e2, b),
        u != w,
        u.generation == w.generation,
        2 * crate::apply::pattern_depth(e1) + 2 < full_fuel(),
        2 * crate::apply::pattern_depth(e2) + 2 < full_fuel(),
    ensures
        unify_patterns_spec(self_pattern(u), self_pattern(w), b, full_fuel()) is Some <==> equal_values(e1, e2),
        unify_patterns_spec(self_pattern(u), self_pattern(w), b, full_fuel()) matches Some(b2)
            ==> crate::apply::apply_pattern(b2, self_pattern(u), fuel) == crate::apply::apply_pattern(b2, self_pattern(w), fuel),
{
    let g = Some(b.generation());
    lemma_ground_term(e1, b);
    lemma_ground_term(e2, b);
    assert(ground_kind(*e1.kind));
    assert(ground_kind(*e2.kind));
    assert(with_default_age(self_pattern(u), g) == self_pattern(u));
    assert(with_default_age(self_pattern(w), g) == self_pattern(w));
    assert(b.get(u) == Some(e1));
    assert(b.get(w) == Some(e2));
    let f = (full_fuel() - 1) as nat;
    lemma_values_unify_iff_equal(e1, e2, b, f);
    assert(unify_inner(self_pattern(u), self_pattern(w), b, full_fuel()) == unify_var_var(u, w, b, f));
    lemma_values_unify_to_a_value(e1, e2, b, f);
    if let Some((p, b1)) = unify_inner(e1, e2, b, f) {
        assert(b1 == b);
        let b2 = b.set(u, p).set(w, p);
        assert(unify_var_var(u, w, b, f) == Some((p, b2)));
        assert(set_current(u, g) == u);
        assert(set_current(w, g) == w);
        crate::binding::lemma_set_then_lookup(b, u, p, w);
        crate::binding::lemma_set_then_lookup(b.set(u, p), w, p, u);
        assert(lookup(b2.entries, u) == Some(p));
        assert(lookup(b2.entries, w) == Some(p));
        assert(set_current(u, u.generation) == u);
        assert(set_current(w, w.generation) == w);
        if fuel > 0 {
            let h = (fuel - 1) as nat;
            assert(crate::apply::apply_pattern(b2, self_pattern(u), fuel) == crate::apply::apply_pattern(b2, with_default_age(p, u.generation), h));
            assert(crate::apply::apply_pattern(b2, self_pattern(w), fuel) == crate::apply::apply_pattern(b2, with_default_age(p, w.generation), h));
        }
    }
}

/// What unifying two complete values gives is not a variable.
proof fn lemma_values_unify_to_a_value(p: Pattern, q: Pattern, b: BindingView, fuel: nat)
    requires
        ground_term(p),
        ground_term(q),
    ensures
        unify_inner(p, q, b, fuel) matches Some((r, _)) ==> !(*r.kind is Variable),
{
    assert(ground_kind(*p.kind));
    assert(ground_kind(*q.kind));
    if fuel > 0 {
        let f = (fuel - 1) as nat;
        if let PatternKind::Struct(n1, c1) = *p.kind {
            if let PatternKind::Struct(n2, c2) = *q.kind {
                assert(unify_inner(p, q, b, fuel) == unify_structs(n1, c1, p.age, n2, c2, q.age, p, b, f));
            }
        }
        if let PatternKind::List(i1, _) = *p.kind {
            if let PatternKind::List(i2, _) = *q.kind {
                assert(unify_inner(p, q, b, fuel) == unify_lists(i1, None, p.age, i2, None, q.age, b, f));
                if f > 0 {
                    let sub = (f - 1) as nat;
                    if let Some((items, b2)) = unify_sequence(list_seq(list_aged(i1, p.age)), list_seq(list_aged(i2, q.age)), b, sub) {
                        assert(unify_lists(i1, None, p.age, i2, None, q.age, b, f) == Some((crate::pattern::list_pattern(list_of_seq(items), None), b2)));
                        assert(crate::pattern::make_list(list_of_seq(items), None) is List);
                    }
                }
            }
        }
        if let PatternKind::Record(f1, _) = *p.kind {
            if let PatternKind::Record(f2, _) = *q.kind {
                assert(unify_inner(p, q, b, fuel) == unify_records(f1, None, p.age, f2, None, q.age, b, f));
                if f > 0 {
                    let sub = (f - 1) as nat;
                    let l = fields_aged(f1, p.age);
                    let r = fields_aged(f2, q.age);
                    if crate::pattern::fields_len(l) == crate::pattern::fields_len(r) {
                        if let Some((fields, b2)) = unify_fields(l, r, FieldList::Nil, b, sub) {
                            assert(unify_records(f1, None, p.age, f2, None, q.age, b, f)
                                == Some((crate::pattern::record_pattern(fields, None), b2)));
                            assert(crate::pattern::make_record(fields, None) is Record);
                        }
                    }
                }
            }
        }
    }
}

/// ... but only once, stated with the same steps on both sides: once a variable with no
/// value has been given a complete value, it unifies with a complete value exactly when its
/// value does, and leaves the binding as its value would.
pub proof fn lemma_variable_unifies_once_as_its_value(v: Variable, p: Pattern, q: Pattern, b: BindingView)
    requires
        b.wf(),
        is_unbound_in(v, b),
        ground_term(p),
        ground_term(q),
        2 * crate::apply::pattern_depth(p) + 2 < full_fuel(),
        2 * crate::apply::pattern_depth(q) + 2 < full_fuel(),
    ensures
        unify_patterns_spec(self_pattern(v), p, b, full_fuel()) matches Some(b2)
            && unify_patterns_spec(self_pattern(v), q, b2, full_fuel()) == unify_patterns_spec(p, q, b2, full_fuel())
            && (unify_patterns_spec(p, q, b2, full_fuel()) is Some <==> equal_values(p, q)),
{
    lemma_ground_term(p, b);
    assert(ground_kind(*p.kind));
    assert(!(*p.kind is Variable) && !(*p.kind is All) && !(*p.kind is Bound) && !(*p.kind is Unbound));
    assert(kind_variables(*p.kind).len() == 0);
    lemma_unbound_variable_takes_value(v, p, b);
    let g = Some(b.generation());
    let pv = with_default_age(p, g);
    let b2 = unify_patterns_spec(self_pattern(v), p, b, full_fuel()).unwrap();
    lemma_ground_default_age(p, g);
    assert(has_value_in(v, pv, b2));
    assert(crate::apply::pattern_depth(pv) == crate::apply::pattern_depth(p));
    lemma_valued_variable_unifies_with_equal_value(v, pv, q, b2, crate::apply::pattern_depth(pv) + crate::apply::pattern_depth(q) + 1);
    lemma_values_unify_exactly_when_equal(p, q, b2, full_fuel());
    assert(equal_values(pv, q) == equal_values(p, q));
}

} // verus!

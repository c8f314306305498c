//! Unification of patterns under a binding.
//!
//! Every function here takes `fuel`: the number of nested steps it may take. A step that
//! runs out of fuel fails. Where a step finds a variable that has no entry in the binding
//! it fails too.
use crate::atom::Atom;
use crate::binding::{Binding, BindingView, self_pattern, bind_entry};
use crate::literal::literal_eq;
use crate::pattern::{Pattern, PatternKind, PatternList, FieldList, with_default_age, pattern_of, pattern_variables, list_seq, list_len, list_pattern, record_pattern, list_tail_ok, record_tail_ok, fields_insert, fields_get, fields_remove, fields_extend, fields_len};
use crate::variable::{Variable, set_current, variable_lt};
use vstd::prelude::*;

verus! {

/// The result of a unification step: the unified pattern and the binding that makes the two
/// sides equal, or `None` when they cannot be unified.
pub type Unified = Option<(Pattern, BindingView)>;

// ------------------------------------------------------------------------------------
// Occurs check
// ------------------------------------------------------------------------------------

/// Whether `variable` occurs in any of `vars` once they are resolved in `b`: one of them is
/// `variable`, or stands (through `b`) for `variable`, or for a pattern in which it occurs.
pub open spec fn occurs_any(variable: Variable, vars: Seq<Variable>, b: BindingView, fuel: nat) -> bool
    decreases fuel, vars.len(),
{
    if vars.len() == 0 {
        false
    } else {
        let var = vars[0];
        let here = if var == variable {
            true
        } else if var.generation is None {
            false
        } else {
            match b.get(var) {
                None => false,
                Some(p) => match *p.kind {
                    PatternKind::Variable(v) => v == variable,
                    _ => if fuel == 0 {
                        false
                    } else {
                        occurs_any(variable, pattern_variables(p), b, (fuel - 1) as nat)
                    },
                },
            }
        };
        here || occurs_any(variable, vars.drop_first(), b, fuel)
    }
}

/// Whether `variable` occurs in `pattern`, once resolved in `b`.
pub open spec fn occurs(variable: Variable, pattern: Pattern, b: BindingView, fuel: nat) -> bool {
    occurs_any(variable, pattern_variables(pattern), b, fuel)
}

// ------------------------------------------------------------------------------------
// Aging and checked construction
// ------------------------------------------------------------------------------------

/// Every pattern of a list with its age filled in with `age`.
pub open spec fn list_aged(l: PatternList, age: Option<usize>) -> PatternList
    decreases l,
{
    match l {
        PatternList::Nil => PatternList::Nil,
        PatternList::Cons(p, rest) => PatternList::Cons(with_default_age(p, age), Box::new(list_aged(*rest, age))),
    }
}

/// Every field pattern with its age filled in with `age`.
pub open spec fn fields_aged(f: FieldList, age: Option<usize>) -> FieldList
    decreases f,
{
    match f {
        FieldList::Nil => FieldList::Nil,
        FieldList::Cons(k, p, rest) => FieldList::Cons(k, with_default_age(p, age), Box::new(fields_aged(*rest, age))),
    }
}

/// The list pattern of `items` and `tail`, or `None` when `tail` cannot stand as the rest
/// of a list.
pub open spec fn list_checked(items: PatternList, tail: Option<Pattern>) -> Option<Pattern> {
    if list_tail_ok(tail) {
        Some(list_pattern(items, tail))
    } else {
        None
    }
}

/// The record pattern of `fields` and `tail`, or `None` when `tail` cannot stand as the
/// other fields of a record.
pub open spec fn record_checked(fields: FieldList, tail: Option<Pattern>) -> Option<Pattern> {
    if record_tail_ok(tail) {
        Some(record_pattern(fields, tail))
    } else {
        None
    }
}

// ------------------------------------------------------------------------------------
// Unification
// ------------------------------------------------------------------------------------

/// Unifies `lhs` with `rhs` under `b`.
///
/// Variables are resolved through the binding; an unbound variable is bound to the other
/// side (unless it occurs there); literals unify when equal; structures when their names
/// are equal and their contents unify; lists and records item by item and field by field,
/// an open tail taking whatever the other side has beyond the common part. `All` unifies
/// with each of its patterns in turn; `Bound` unifies only with a bound value and `Unbound`
/// only with an unbound variable.
pub open spec fn unify_inner(lhs: Pattern, rhs: Pattern, b: BindingView, fuel: nat) -> Unified
    decreases fuel, 0nat,
{
    if fuel == 0 {
        None
    } else {
        let f = (fuel - 1) as nat;
        let lk = *lhs.kind;
        let rk = *rhs.kind;
        if rk is All {
            unify_inner(rhs, lhs, b, f)
        } else if lk is All {
            unify_all(list_seq(lk->All_0), lhs.age, rhs, b, f)
        } else if lk is Variable && rk is Variable {
            if lk->Variable_0 == rk->Variable_0 {
                Some((lhs, b))
            } else {
                unify_var_var(lk->Variable_0, rk->Variable_0, b, f)
            }
        } else if lk is Bound && rk is Variable {
            unify_inner(rhs, lhs, b, f)
        } else if lk is Variable && rk is Bound {
            match b.get(lk->Variable_0) {
                None => None,
                Some(val) => if *val.kind is Variable {
                    None
                } else {
                    Some((val, b))
                },
            }
        } else if lk is Unbound && rk is Variable {
            unify_inner(rhs, lhs, b, f)
        } else if lk is Variable && rk is Unbound {
            match b.get(lk->Variable_0) {
                None => None,
                Some(val) => if *val.kind is Variable {
                    Some((val, b))
                } else {
                    None
                },
            }
        } else if rk is Variable {
            unify_inner(rhs, lhs, b, f)
        } else if lk is Variable {
            unify_var_value(lk->Variable_0, rhs, b, f)
        } else if lk is Any && rk is Any && lk->Any_0 == rk->Any_0 {
            Some((lhs, b))
        } else if lk is Unbound && rk is Unbound {
            Some((lhs, b))
        } else if rk is Bound {
            Some((lhs, b))
        } else if lk is Bound {
            Some((rhs, b))
        } else if lk is Literal && rk is Literal {
            if literal_eq(lk->Literal_0, rk->Literal_0) {
                Some((lhs, b))
            } else {
                None
            }
        } else if lk is Struct && rk is Struct {
            unify_structs(lk->Struct_0, lk->Struct_1, lhs.age, rk->Struct_0, rk->Struct_1, rhs.age, lhs, b, f)
        } else if lk is List && rk is List {
            unify_lists(lk->List_0, lk->List_1, lhs.age, rk->List_0, rk->List_1, rhs.age, b, f)
        } else if lk is Record && rk is Record {
            unify_records(lk->Record_0, lk->Record_1, lhs.age, rk->Record_0, rk->Record_1, rhs.age, b, f)
        } else {
            None
        }
    }
}

/// `All(patterns)` at age `age` unified with `rhs`: each pattern in turn is unified with
/// what the previous unification produced.
pub open spec fn unify_all(patterns: Seq<Pattern>, age: Option<usize>, rhs: Pattern, b: BindingView, fuel: nat) -> Unified
    decreases fuel, patterns.len() + 1,
{
    if patterns.len() == 0 {
        Some((rhs, b))
    } else {
        match unify_inner(with_default_age(patterns[0], age), rhs, b, fuel) {
            None => None,
            Some((rhs2, b2)) => unify_all(patterns.drop_first(), age, rhs2, b2, fuel),
        }
    }
}

/// Two different variables unified: both are resolved; two unbound variables are joined,
/// the smaller in the order of variables standing for both; otherwise what they stand for
/// is unified. Both variables are then bound to the result.
pub open spec fn unify_var_var(lv: Variable, rv: Variable, b: BindingView, fuel: nat) -> Unified
    decreases fuel, 1nat,
{
    match (b.get(lv), b.get(rv)) {
        (Some(lp), Some(rp)) => {
            let joined: Unified = if *lp.kind is Variable && *rp.kind is Variable {
                if variable_lt(lp.kind->Variable_0, rp.kind->Variable_0) {
                    Some((lp, b))
                } else {
                    Some((rp, b))
                }
            } else {
                unify_inner(lp, rp, b, fuel)
            };
            match joined {
                None => None,
                Some((p, b2)) => Some((p, b2.set(lv, p).set(rv, p))),
            }
        },
        _ => None,
    }
}

/// A variable unified with a pattern that is not a variable: an unbound variable is bound
/// to the pattern, unless it occurs in it; a bound one's value is unified with it.
pub open spec fn unify_var_value(var: Variable, rhs: Pattern, b: BindingView, fuel: nat) -> Unified
    decreases fuel, 1nat,
{
    match b.get(var) {
        None => None,
        Some(vp) => match *vp.kind {
            PatternKind::Variable(pv) => if occurs(pv, rhs, b, fuel) {
                None
            } else {
                Some((rhs, b.set(pv, rhs)))
            },
            _ => unify_inner(vp, rhs, b, fuel),
        },
    }
}

/// Two structures unified: their names must be equal, and then their contents unify.
pub open spec fn unify_structs(
    lname: Atom,
    lcontents: Option<Pattern>,
    lage: Option<usize>,
    rname: Atom,
    rcontents: Option<Pattern>,
    rage: Option<usize>,
    lhs: Pattern,
    b: BindingView,
    fuel: nat,
) -> Unified
    decreases fuel, 1nat,
{
    if lname != rname {
        None
    } else {
        match (lcontents, rcontents) {
            (None, None) => Some((lhs, b)),
            (Some(lc), Some(rc)) => match unify_inner(with_default_age(lc, lage), with_default_age(rc, rage), b, fuel) {
                None => None,
                Some((contents, b2)) => Some((pattern_of(PatternKind::Struct(lname, Some(contents))), b2)),
            },
            _ => None,
        }
    }
}

/// Two lists of patterns unified item by item; they must have the same length.
pub open spec fn unify_sequence(lhs: Seq<Pattern>, rhs: Seq<Pattern>, b: BindingView, fuel: nat) -> Option<(Seq<Pattern>, BindingView)>
    decreases fuel, lhs.len() + 1,
{
    if lhs.len() != rhs.len() {
        None
    } else if lhs.len() == 0 {
        Some((Seq::empty(), b))
    } else {
        match unify_inner(lhs[0], rhs[0], b, fuel) {
            None => None,
            Some((p, b2)) => match unify_sequence(lhs.drop_first(), rhs.drop_first(), b2, fuel) {
                None => None,
                Some((ps, b3)) => Some((seq![p] + ps, b3)),
            },
        }
    }
}

/// The common prefix of two lists unified item by item; also gives what remains of the
/// longer list (of `rhs` when the lengths are equal).
pub open spec fn unify_prefix(lhs: Seq<Pattern>, rhs: Seq<Pattern>, b: BindingView, fuel: nat) -> Option<(Seq<Pattern>, Seq<Pattern>, BindingView)>
    decreases fuel, lhs.len() + 1,
{
    if lhs.len() == 0 || rhs.len() == 0 {
        if lhs.len() == 0 {
            Some((Seq::empty(), rhs, b))
        } else {
            Some((Seq::empty(), lhs, b))
        }
    } else {
        match unify_inner(lhs[0], rhs[0], b, fuel) {
            None => None,
            Some((p, b2)) => match unify_prefix(lhs.drop_first(), rhs.drop_first(), b2, fuel) {
                None => None,
                Some((ps, rest, b3)) => Some((seq![p] + ps, rest, b3)),
            },
        }
    }
}

/// All of `lhs` unified with the start of `rhs`, which must be at least as long; also gives
/// what remains of `rhs`.
pub open spec fn unify_full_prefix(lhs: Seq<Pattern>, rhs: Seq<Pattern>, b: BindingView, fuel: nat) -> Option<(Seq<Pattern>, Seq<Pattern>, BindingView)>
    decreases fuel, lhs.len() + 2,
{
    if lhs.len() > rhs.len() {
        None
    } else {
        unify_prefix(lhs, rhs, b, fuel)
    }
}

/// A sequence of patterns as a list.
pub open spec fn list_of_seq(s: Seq<Pattern>) -> PatternList
    decreases s.len(),
{
    if s.len() == 0 {
        PatternList::Nil
    } else {
        PatternList::Cons(s[0], Box::new(list_of_seq(s.drop_first())))
    }
}

/// Two lists unified.
///
/// Two complete lists unify item by item. A list with a rest and a complete list: the
/// items of the first unify with the start of the second, and the rest (a variable) with
/// what remains. Two lists with rests: their common prefix unifies, and the rest of the
/// shorter one with what remains of the longer one.
pub open spec fn unify_lists(
    litems: PatternList,
    ltail: Option<Pattern>,
    lage: Option<usize>,
    ritems: PatternList,
    rtail: Option<Pattern>,
    rage: Option<usize>,
    b: BindingView,
    fuel: nat,
) -> Unified
    decreases fuel, 1nat,
{
    if fuel == 0 {
        None
    } else {
    let sub = (fuel - 1) as nat;
    let l = list_seq(list_aged(litems, lage));
    let r = list_seq(list_aged(ritems, rage));
    match (ltail, rtail) {
        (None, None) => match unify_sequence(l, r, b, sub) {
            None => None,
            Some((items, b2)) => Some((list_pattern(list_of_seq(items), None), b2)),
        },
        (None, Some(_)) => unify_lists(ritems, rtail, rage, litems, ltail, lage, b, sub),
        (Some(tail), None) => match *tail.kind {
            PatternKind::Variable(variable) => match unify_full_prefix(l, r, b, sub) {
                None => None,
                Some((output, rest, b2)) => match b2.get(set_current(variable, lage)) {
                    None => None,
                    Some(tail_pat) => match unify_inner(tail_pat, list_pattern(list_of_seq(rest), None), b2, fuel) {
                        None => None,
                        Some((tail2, b3)) => match list_checked(list_of_seq(output), Some(tail2)) {
                            None => None,
                            Some(p) => Some((p, b3)),
                        },
                    },
                },
            },
            _ => None,
        },
        (Some(lt), Some(rt)) => match unify_prefix(l, r, b, sub) {
            None => None,
            Some((unified, remaining, b2)) => {
                let suffix = if list_len(litems) < list_len(ritems) {
                    match list_checked(list_of_seq(remaining), Some(with_default_age(rt, rage))) {
                        None => None,
                        Some(other) => unify_inner(with_default_age(lt, lage), other, b2, fuel),
                    }
                } else {
                    match list_checked(list_of_seq(remaining), Some(with_default_age(lt, lage))) {
                        None => None,
                        Some(other) => unify_inner(other, with_default_age(rt, rage), b2, fuel),
                    }
                };
                match suffix {
                    None => None,
                    Some((s, b3)) => match list_checked(list_of_seq(unified), Some(s)) {
                        None => None,
                        Some(p) => Some((p, b3)),
                    },
                }
            },
        },
    }
    }
}

/// Two complete sets of fields with the same names unified name by name, in order of the
/// names; `None` when the names differ.
pub open spec fn unify_fields(lhs: FieldList, rhs: FieldList, acc: FieldList, b: BindingView, fuel: nat) -> Option<(FieldList, BindingView)>
    decreases fuel, fields_len(lhs) + 1,
{
    match (lhs, rhs) {
        (FieldList::Nil, FieldList::Nil) => Some((acc, b)),
        (FieldList::Cons(lk, lp, lrest), FieldList::Cons(rk, rp, rrest)) => if lk != rk {
            None
        } else {
            match unify_inner(lp, rp, b, fuel) {
                None => None,
                Some((p, b2)) => unify_fields(*lrest, *rrest, fields_insert(acc, lk, p), b2, fuel),
            }
        },
        _ => None,
    }
}

/// Each field of `part` unified with the field of the same name in `full`, which must have
/// one; also gives the fields of `full` that `part` does not name.
pub open spec fn unify_fields_partial(part: FieldList, full: FieldList, acc: FieldList, b: BindingView, fuel: nat) -> Option<(FieldList, FieldList, BindingView)>
    decreases fuel, fields_len(part) + 1,
{
    match part {
        FieldList::Nil => Some((acc, full, b)),
        FieldList::Cons(k, p, rest) => match fields_get(full, k) {
            None => None,
            Some(other) => match unify_inner(p, other, b, fuel) {
                None => None,
                Some((u, b2)) => unify_fields_partial(*rest, fields_remove(full, k), fields_insert(acc, k, u), b2, fuel),
            },
        },
    }
}

/// The fields named on both sides unified, in increasing order of their names; also gives
/// the fields only `lhs` names and those only `rhs` names.
pub open spec fn unify_fields_difference(lhs: FieldList, rhs: FieldList, b: BindingView, fuel: nat) -> Option<(FieldList, FieldList, FieldList, BindingView)>
    decreases fuel, fields_len(lhs) + fields_len(rhs) + 1,
{
    match (lhs, rhs) {
        (FieldList::Nil, _) => Some((FieldList::Nil, FieldList::Nil, rhs, b)),
        (_, FieldList::Nil) => Some((FieldList::Nil, lhs, FieldList::Nil, b)),
        (FieldList::Cons(lk, lp, lrest), FieldList::Cons(rk, rp, rrest)) => {
            if lk == rk {
                match unify_inner(lp, rp, b, fuel) {
                    None => None,
                    Some((p, b2)) => match unify_fields_difference(*lrest, *rrest, b2, fuel) {
                        None => None,
                        Some((i, l, r, b3)) => Some((FieldList::Cons(lk, p, Box::new(i)), l, r, b3)),
                    },
                }
            } else if lk.spec_index() < rk.spec_index() {
                match unify_fields_difference(*lrest, rhs, b, fuel) {
                    None => None,
                    Some((i, l, r, b2)) => Some((i, FieldList::Cons(lk, lp, Box::new(l)), r, b2)),
                }
            } else {
                match unify_fields_difference(lhs, *rrest, b, fuel) {
                    None => None,
                    Some((i, l, r, b2)) => Some((i, l, FieldList::Cons(rk, rp, Box::new(r)), b2)),
                }
            }
        },
    }
}

/// Two records unified.
///
/// Two complete records unify field by field. A record with other fields and a complete
/// record: its fields unify with those of the same names, and its other fields (a variable)
/// with the remaining fields. Two records with other fields: the common fields unify, and
/// each side's other fields unify with the fields only the other side names plus a new
/// variable standing for the fields neither names.
pub open spec fn unify_records(
    lfields: FieldList,
    ltail: Option<Pattern>,
    lage: Option<usize>,
    rfields: FieldList,
    rtail: Option<Pattern>,
    rage: Option<usize>,
    b: BindingView,
    fuel: nat,
) -> Unified
    decreases fuel, 1nat,
{
    if fuel == 0 {
        None
    } else {
    let sub = (fuel - 1) as nat;
    let l = fields_aged(lfields, lage);
    let r = fields_aged(rfields, rage);
    match (ltail, rtail) {
        (None, None) => if fields_len(l) != fields_len(r) {
            None
        } else {
            match unify_fields(l, r, FieldList::Nil, b, sub) {
                None => None,
                Some((fields, b2)) => Some((record_pattern(fields, None), b2)),
            }
        },
        (None, Some(_)) => unify_records(rfields, rtail, rage, lfields, ltail, lage, b, sub),
        (Some(tail), None) => match *tail.kind {
            PatternKind::Variable(ident) => match unify_fields_partial(l, r, FieldList::Nil, b, sub) {
                None => None,
                Some((output, rest, b2)) => match b2.get(set_current(ident, lage)) {
                    None => None,
                    Some(tail_pat) => match unify_inner(tail_pat, record_pattern(rest, None), b2, fuel) {
                        None => None,
                        Some((tail2, b3)) => match record_checked(output, Some(tail2)) {
                            None => None,
                            Some(p) => Some((p, b3)),
                        },
                    },
                },
            },
            _ => None,
        },
        (Some(lt), Some(rt)) => match unify_fields_difference(l, r, b, sub) {
            None => None,
            Some((intersection, lrest, rrest, b1)) => {
                let shared = self_pattern(b1.next_fresh());
                let b2 = b1.with_fresh();
                let complete = record_pattern(fields_extend(lrest, rrest), Some(shared));
                match (record_checked(lrest, Some(with_default_age(lt, lage))), record_checked(rrest, Some(with_default_age(rt, rage)))) {
                    (Some(new_lt), Some(new_rt)) => match unify_inner(new_lt, complete, b2, fuel) {
                        None => None,
                        Some((_, b3)) => match unify_inner(new_rt, complete, b3, fuel) {
                            None => None,
                            Some((_, b4)) => Some((record_pattern(intersection, Some(complete)), b4)),
                        },
                    },
                    _ => None,
                }
            },
        },
    }
    }
}

/// The binding after unifying `lhs` and `rhs` in the current generation of `b`, or `None`
/// when they cannot be unified.
pub open spec fn unify_patterns_spec(lhs: Pattern, rhs: Pattern, b: BindingView, fuel: nat) -> Option<BindingView> {
    match unify_inner(
        with_default_age(lhs, Some(b.generation())),
        with_default_age(rhs, Some(b.generation())),
        b,
        fuel,
    ) {
        Some((_, b2)) => Some(b2),
        None => None,
    }
}


// ------------------------------------------------------------------------------------
// Executable unification
// ------------------------------------------------------------------------------------

/// The number of nested steps that [`unify_patterns`] may take.
pub const UNIFY_FUEL: u64 = 0xffff_ffff_ffff_ffffu64;

/// Whether an executable result stands for the unification result `s`, with a
/// well-formed binding.
pub open spec fn same_unified(r: Option<(Pattern, Binding)>, s: Unified) -> bool {
    match r {
        None => s is None,
        Some((p, b)) => s == Some((p, b@)) && b@.wf(),
    }
}

/// A list is the list of its own sequence, and has as many items as its sequence.
pub proof fn lemma_list_roundtrip(l: PatternList)
    ensures
        list_of_seq(list_seq(l)) == l,
        list_seq(l).len() == list_len(l),
    decreases l,
{
    match l {
        PatternList::Nil => {},
        PatternList::Cons(p, rest) => {
            lemma_list_roundtrip(*rest);
            assert((seq![p] + list_seq(*rest)).drop_first() =~= list_seq(*rest));
        },
    }
}

proof fn lemma_list_seq_cons(p: Pattern, rest: PatternList)
    ensures
        list_seq(PatternList::Cons(p, Box::new(rest))).len() > 0,
        list_seq(PatternList::Cons(p, Box::new(rest)))[0] == p,
        list_seq(PatternList::Cons(p, Box::new(rest))).drop_first() == list_seq(rest),
{
    assert((seq![p] + list_seq(rest)).drop_first() =~= list_seq(rest));
}

/// The variable of a variable shape.
fn variable_of(k: &PatternKind) -> (v: Variable)
    requires
        *k is Variable,
    ensures
        v == k->Variable_0,
{
    match k {
        PatternKind::Variable(v) => *v,
        _ => {
            proof {
                assert(false);
            }
            Variable::new_generationless(crate::identifier::Identifier::fresh(0))
        },
    }
}

/// Whether `variable` occurs in `vars[i..]`; see [`occurs_any`].
fn occurs_from(variable: Variable, vars: &Vec<Variable>, i: usize, b: &Binding, fuel: u64) -> (r: bool)
    requires
        i <= vars@.len(),
    ensures
        r == occurs_any(variable, vars@.subrange(i as int, vars@.len() as int), b@, fuel as nat),
    decreases fuel, vars@.len() - i,
{
    let ghost rest = vars@.subrange(i as int, vars@.len() as int);
    if i == vars.len() {
        return false;
    }
    let var = vars[i];
    proof {
        assert(rest[0] == var);
        assert(rest.drop_first() =~= vars@.subrange(i + 1, vars@.len() as int));
    }
    let here = if var == variable {
        true
    } else if var.generation().is_none() {
        false
    } else {
        match b.get(var) {
            None => false,
            Some(p) => {
                if p.kind.is_variable() {
                    variable_of(&p.kind) == variable
                } else if fuel == 0 {
                    false
                } else {
                    let inner = p.variables();
                    proof {
                        assert(inner@.subrange(0, inner@.len() as int) =~= inner@);
                    }
                    occurs_from(variable, &inner, 0, b, fuel - 1)
                }
            },
        }
    };
    here || occurs_from(variable, vars, i + 1, b, fuel)
}

/// Whether `variable` occurs in `pattern`, once resolved in `b`; see [`occurs`].
pub fn occurs_check(variable: Variable, pattern: &Pattern, b: &Binding, fuel: u64) -> (r: bool)
    ensures
        r == occurs(variable, *pattern, b@, fuel as nat),
{
    let vars = pattern.variables();
    proof {
        assert(vars@.subrange(0, vars@.len() as int) =~= vars@);
    }
    occurs_from(variable, &vars, 0, b, fuel)
}

/// Every pattern of a list with its age filled in; see [`list_aged`].
fn aged_list(l: &PatternList, age: Option<usize>) -> (r: PatternList)
    ensures
        r == list_aged(*l, age),
    decreases l,
{
    match l {
        PatternList::Nil => PatternList::Nil,
        PatternList::Cons(p, rest) => PatternList::Cons(p.default_age(age), Box::new(aged_list(&**rest, age))),
    }
}

/// Every field pattern with its age filled in; see [`fields_aged`].
fn aged_fields(f: &FieldList, age: Option<usize>) -> (r: FieldList)
    ensures
        r == fields_aged(*f, age),
    decreases f,
{
    match f {
        FieldList::Nil => FieldList::Nil,
        FieldList::Cons(k, p, rest) => FieldList::Cons(*k, p.default_age(age), Box::new(aged_fields(&**rest, age))),
    }
}

/// Whether `tail` may stand as the rest of a list; see [`list_tail_ok`].
fn list_tail_ok_exec(tail: &Option<Pattern>) -> (r: bool)
    ensures
        r == list_tail_ok(*tail),
    decreases tail,
{
    match tail {
        None => true,
        Some(p) => match &*p.kind {
            PatternKind::Variable(..) => true,
            PatternKind::List(_, t) => list_tail_ok_exec(t),
            _ => false,
        },
    }
}

/// Whether `tail` may stand as the other fields of a record; see [`record_tail_ok`].
pub(crate) fn record_tail_ok_exec(tail: &Option<Pattern>) -> (r: bool)
    ensures
        r == record_tail_ok(*tail),
    decreases tail,
{
    match tail {
        None => true,
        Some(p) => match &*p.kind {
            PatternKind::Variable(..) => true,
            PatternKind::Record(_, t) => record_tail_ok_exec(t),
            _ => false,
        },
    }
}

/// The list pattern of `items` and `tail`, if `tail` may stand there; see [`list_checked`].
pub fn list_checked_exec(items: PatternList, tail: Option<Pattern>) -> (r: Option<Pattern>)
    ensures
        r == list_checked(items, tail),
{
    if list_tail_ok_exec(&tail) {
        Some(Pattern::list(items, tail))
    } else {
        None
    }
}

/// The record pattern of `fields` and `tail`, if `tail` may stand there; see
/// [`record_checked`].
pub fn record_checked_exec(fields: FieldList, tail: Option<Pattern>) -> (r: Option<Pattern>)
    ensures
        r == record_checked(fields, tail),
{
    if record_tail_ok_exec(&tail) {
        Some(Pattern::record(fields, tail))
    } else {
        None
    }
}

/// Whether two lists have the same number of patterns.
fn same_length(a: &PatternList, b: &PatternList) -> (r: bool)
    ensures
        r == (list_len(*a) == list_len(*b)),
    decreases a,
{
    match (a, b) {
        (PatternList::Nil, PatternList::Nil) => true,
        (PatternList::Cons(_, x), PatternList::Cons(_, y)) => same_length(&**x, &**y),
        _ => false,
    }
}

/// Whether `a` has fewer patterns than `b`.
fn shorter(a: &PatternList, b: &PatternList) -> (r: bool)
    ensures
        r == (list_len(*a) < list_len(*b)),
    decreases a,
{
    match (a, b) {
        (PatternList::Nil, PatternList::Nil) => false,
        (PatternList::Nil, _) => true,
        (_, PatternList::Nil) => false,
        (PatternList::Cons(_, x), PatternList::Cons(_, y)) => shorter(&**x, &**y),
    }
}

/// Whether two sets of fields have the same number of fields.
fn same_field_count(a: &FieldList, b: &FieldList) -> (r: bool)
    ensures
        r == (fields_len(*a) == fields_len(*b)),
    decreases a,
{
    match (a, b) {
        (FieldList::Nil, FieldList::Nil) => true,
        (FieldList::Cons(_, _, x), FieldList::Cons(_, _, y)) => same_field_count(&**x, &**y),
        _ => false,
    }
}

/// Unifies `lhs` with `rhs` under `b`; see [`unify_inner`].
pub fn unify_inner_exec(lhs: Pattern, rhs: Pattern, b: Binding, fuel: u64) -> (r: Option<(Pattern, Binding)>)
    requires
        b@.wf(),
    ensures
        same_unified(r, unify_inner(lhs, rhs, b@, fuel as nat)),
    decreases fuel, 0nat,
{
    if fuel == 0 {
        return None;
    }
    let f = fuel - 1;
    if rhs.kind.is_all() {
        return unify_inner_exec(rhs, lhs, b, f);
    }
    if lhs.kind.is_all() {
        let ghost lhs0 = lhs;
        let Pattern { kind, age } = lhs;
        match *kind {
            PatternKind::All(items) => {
                return unify_all_exec(items, age, rhs, b, f);
            },
            _ => {
                proof {
                    assert(false);
                }
                return None;
            },
        }
    }
    let lvar = lhs.kind.is_variable();
    let rvar = rhs.kind.is_variable();
    if lvar && rvar {
        let lv = variable_of(&lhs.kind);
        let rv = variable_of(&rhs.kind);
        if lv == rv {
            return Some((lhs, b));
        }
        return unify_var_var_exec(lv, rv, b, f);
    }
    if lhs.kind.is_bound() && rvar {
        return unify_inner_exec(rhs, lhs, b, f);
    }
    if lvar && rhs.kind.is_bound() {
        let lv = variable_of(&lhs.kind);
        return match b.get(lv) {
            None => None,
            Some(val) => if val.kind.is_variable() {
                None
            } else {
                Some((val, b))
            },
        };
    }
    if lhs.kind.is_unbound() && rvar {
        return unify_inner_exec(rhs, lhs, b, f);
    }
    if lvar && rhs.kind.is_unbound() {
        let lv = variable_of(&lhs.kind);
        return match b.get(lv) {
            None => None,
            Some(val) => if val.kind.is_variable() {
                Some((val, b))
            } else {
                None
            },
        };
    }
    if rvar {
        return unify_inner_exec(rhs, lhs, b, f);
    }
    if lvar {
        let lv = variable_of(&lhs.kind);
        return unify_var_value_exec(lv, rhs, b, f);
    }
    let same_any = match (&*lhs.kind, &*rhs.kind) {
        (PatternKind::Any(x), PatternKind::Any(y)) => *x == *y,
        _ => false,
    };
    if same_any {
        return Some((lhs, b));
    }
    if lhs.kind.is_unbound() && rhs.kind.is_unbound() {
        return Some((lhs, b));
    }
    if rhs.kind.is_bound() {
        return Some((lhs, b));
    }
    if lhs.kind.is_bound() {
        return Some((rhs, b));
    }
    let literals = match (&*lhs.kind, &*rhs.kind) {
        (PatternKind::Literal(x), PatternKind::Literal(y)) => Some(x.same_value(y)),
        _ => None,
    };
    match literals {
        Some(true) => {
            return Some((lhs, b));
        },
        Some(false) => {
            return None;
        },
        None => {},
    }
    let lhs_keep = lhs.copy();
    let Pattern { kind: lk, age: lage } = lhs;
    let Pattern { kind: rk, age: rage } = rhs;
    match (*lk, *rk) {
        (PatternKind::Struct(ln, lc), PatternKind::Struct(rn, rc)) => unify_structs_exec(
            ln,
            lc,
            lage,
            rn,
            rc,
            rage,
            lhs_keep,
            b,
            f,
        ),
        (PatternKind::List(li, lt), PatternKind::List(ri, rt)) => unify_lists_exec(
            li,
            lt,
            lage,
            ri,
            rt,
            rage,
            b,
            f,
        ),
        (PatternKind::Record(lf, lt), PatternKind::Record(rf, rt)) => unify_records_exec(
            lf,
            lt,
            lage,
            rf,
            rt,
            rage,
            b,
            f,
        ),
        _ => None,
    }
}

/// `All(items)` at age `age` unified with `rhs`; see [`unify_all`].
fn unify_all_exec(items: PatternList, age: Option<usize>, rhs: Pattern, b: Binding, fuel: u64) -> (r: Option<(Pattern, Binding)>)
    requires
        b@.wf(),
    ensures
        same_unified(r, unify_all(list_seq(items), age, rhs, b@, fuel as nat)),
    decreases fuel, list_len(items) + 1,
{
    match items {
        PatternList::Nil => Some((rhs, b)),
        PatternList::Cons(p, rest) => {
            proof {
                lemma_list_seq_cons(p, *rest);
            }
            match unify_inner_exec(p.default_age(age), rhs, b, fuel) {
                None => None,
                Some((rhs2, b2)) => unify_all_exec(*rest, age, rhs2, b2, fuel),
            }
        },
    }
}

/// Two different variables unified; see [`unify_var_var`].
fn unify_var_var_exec(lv: Variable, rv: Variable, b: Binding, fuel: u64) -> (r: Option<(Pattern, Binding)>)
    requires
        b@.wf(),
    ensures
        same_unified(r, unify_var_var(lv, rv, b@, fuel as nat)),
    decreases fuel, 1nat,
{
    let lp = b.get(lv);
    let rp = b.get(rv);
    match (lp, rp) {
        (Some(lp), Some(rp)) => {
            let joined = if lp.kind.is_variable() && rp.kind.is_variable() {
                let a = variable_of(&lp.kind);
                let c = variable_of(&rp.kind);
                if a.lt(&c) {
                    Some((lp, b))
                } else {
                    Some((rp, b))
                }
            } else {
                unify_inner_exec(lp, rp, b, fuel)
            };
            match joined {
                None => None,
                Some((p, b2)) => {
                    let mut b2 = b2;
                    b2.set(lv, p.copy());
                    b2.set(rv, p.copy());
                    Some((p, b2))
                },
            }
        },
        _ => None,
    }
}

/// A variable unified with a pattern that is not a variable; see [`unify_var_value`].
fn unify_var_value_exec(var: Variable, rhs: Pattern, b: Binding, fuel: u64) -> (r: Option<(Pattern, Binding)>)
    requires
        b@.wf(),
    ensures
        same_unified(r, unify_var_value(var, rhs, b@, fuel as nat)),
    decreases fuel, 1nat,
{
    match b.get(var) {
        None => None,
        Some(vp) => {
            if vp.kind.is_variable() {
                let pv = variable_of(&vp.kind);
                if occurs_check(pv, &rhs, &b, fuel) {
                    None
                } else {
                    let mut b2 = b;
                    b2.set(pv, rhs.copy());
                    Some((rhs, b2))
                }
            } else {
                unify_inner_exec(vp, rhs, b, fuel)
            }
        },
    }
}

/// Two structures unified; see [`unify_structs`].
fn unify_structs_exec(
    lname: Atom,
    lcontents: Option<Pattern>,
    lage: Option<usize>,
    rname: Atom,
    rcontents: Option<Pattern>,
    rage: Option<usize>,
    lhs: Pattern,
    b: Binding,
    fuel: u64,
) -> (r: Option<(Pattern, Binding)>)
    requires
        b@.wf(),
    ensures
        same_unified(r, unify_structs(lname, lcontents, lage, rname, rcontents, rage, lhs, b@, fuel as nat)),
    decreases fuel, 1nat,
{
    if lname != rname {
        return None;
    }
    match (lcontents, rcontents) {
        (None, None) => Some((lhs, b)),
        (Some(lc), Some(rc)) => match unify_inner_exec(lc.default_age(lage), rc.default_age(rage), b, fuel) {
            None => None,
            Some((contents, b2)) => Some((Pattern::from_kind(PatternKind::Struct(lname, Some(contents))), b2)),
        },
        _ => None,
    }
}

/// Two lists unified item by item; see [`unify_sequence`].
fn unify_sequence_exec(l: PatternList, r: PatternList, b: Binding, fuel: u64) -> (res: Option<(PatternList, Binding)>)
    requires
        b@.wf(),
    ensures
        match res {
            None => unify_sequence(list_seq(l), list_seq(r), b@, fuel as nat) is None,
            Some((out, b2)) => unify_sequence(list_seq(l), list_seq(r), b@, fuel as nat) == Some((list_seq(out), b2@)) && b2@.wf(),
        },
    decreases fuel, list_len(l) + 1,
{
    proof {
        lemma_list_roundtrip(l);
        lemma_list_roundtrip(r);
    }
    if !same_length(&l, &r) {
        return None;
    }
    match (l, r) {
        (PatternList::Nil, PatternList::Nil) => Some((PatternList::Nil, b)),
        (PatternList::Cons(lp, lrest), PatternList::Cons(rp, rrest)) => {
            proof {
                lemma_list_seq_cons(lp, *lrest);
                lemma_list_seq_cons(rp, *rrest);
            }
            match unify_inner_exec(lp, rp, b, fuel) {
                None => None,
                Some((p, b2)) => match unify_sequence_exec(*lrest, *rrest, b2, fuel) {
                    None => None,
                    Some((ps, b3)) => Some((PatternList::Cons(p, Box::new(ps)), b3)),
                },
            }
        },
        _ => None,
    }
}

/// The common prefix of two lists unified; see [`unify_prefix`].
fn unify_prefix_exec(l: PatternList, r: PatternList, b: Binding, fuel: u64) -> (res: Option<(PatternList, PatternList, Binding)>)
    requires
        b@.wf(),
    ensures
        match res {
            None => unify_prefix(list_seq(l), list_seq(r), b@, fuel as nat) is None,
            Some((out, rest, b2)) => unify_prefix(list_seq(l), list_seq(r), b@, fuel as nat) == Some((list_seq(out), list_seq(rest), b2@)) && b2@.wf(),
        },
    decreases fuel, list_len(l) + 1,
{
    proof {
        lemma_list_roundtrip(l);
        lemma_list_roundtrip(r);
    }
    match (l, r) {
        (PatternList::Nil, r) => Some((PatternList::Nil, r, b)),
        (l, PatternList::Nil) => Some((PatternList::Nil, l, b)),
        (PatternList::Cons(lp, lrest), PatternList::Cons(rp, rrest)) => {
            proof {
                lemma_list_seq_cons(lp, *lrest);
                lemma_list_seq_cons(rp, *rrest);
            }
            match unify_inner_exec(lp, rp, b, fuel) {
                None => None,
                Some((p, b2)) => match unify_prefix_exec(*lrest, *rrest, b2, fuel) {
                    None => None,
                    Some((ps, rest, b3)) => Some((PatternList::Cons(p, Box::new(ps)), rest, b3)),
                },
            }
        },
    }
}

/// All of `l` unified with the start of `r`; see [`unify_full_prefix`].
fn unify_full_prefix_exec(l: PatternList, r: PatternList, b: Binding, fuel: u64) -> (res: Option<(PatternList, PatternList, Binding)>)
    requires
        b@.wf(),
    ensures
        match res {
            None => unify_full_prefix(list_seq(l), list_seq(r), b@, fuel as nat) is None,
            Some((out, rest, b2)) => unify_full_prefix(list_seq(l), list_seq(r), b@, fuel as nat) == Some((list_seq(out), list_seq(rest), b2@)) && b2@.wf(),
        },
    decreases fuel, list_len(l) + 2,
{
    proof {
        lemma_list_roundtrip(l);
        lemma_list_roundtrip(r);
    }
    if shorter(&r, &l) {
        return None;
    }
    unify_prefix_exec(l, r, b, fuel)
}

/// Two lists unified; see [`unify_lists`].
fn unify_lists_exec(
    litems: PatternList,
    ltail: Option<Pattern>,
    lage: Option<usize>,
    ritems: PatternList,
    rtail: Option<Pattern>,
    rage: Option<usize>,
    b: Binding,
    fuel: u64,
) -> (res: Option<(Pattern, Binding)>)
    requires
        b@.wf(),
    ensures
        same_unified(res, unify_lists(litems, ltail, lage, ritems, rtail, rage, b@, fuel as nat)),
    decreases fuel, 1nat,
{
    if fuel == 0 {
        return None;
    }
    let sub = fuel - 1;
    let l = aged_list(&litems, lage);
    let r = aged_list(&ritems, rage);
    match (ltail, rtail) {
        (None, None) => match unify_sequence_exec(l, r, b, sub) {
            None => None,
            Some((items, b2)) => {
                proof {
                    lemma_list_roundtrip(items);
                }
                Some((Pattern::list(items, None), b2))
            },
        },
        (None, Some(rt)) => unify_lists_exec(ritems, Some(rt), rage, litems, None, lage, b, sub),
        (Some(tail), None) => {
            if !tail.kind.is_variable() {
                return None;
            }
            let variable = variable_of(&tail.kind);
            match unify_full_prefix_exec(l, r, b, sub) {
                None => None,
                Some((output, rest, b2)) => {
                    proof {
                        lemma_list_roundtrip(output);
                        lemma_list_roundtrip(rest);
                    }
                    match b2.get(variable.set_current(lage)) {
                        None => None,
                        Some(tail_pat) => {
                            let rest_pat = Pattern::list(rest, None);
                            match unify_inner_exec(tail_pat, rest_pat, b2, fuel) {
                                None => None,
                                Some((tail2, b3)) => match list_checked_exec(output, Some(tail2)) {
                                    None => None,
                                    Some(p) => Some((p, b3)),
                                },
                            }
                        },
                    }
                },
            }
        },
        (Some(lt), Some(rt)) => {
            let lshort = shorter(&litems, &ritems);
            match unify_prefix_exec(l, r, b, sub) {
                None => None,
                Some((unified, remaining, b2)) => {
                    proof {
                        lemma_list_roundtrip(unified);
                        lemma_list_roundtrip(remaining);
                    }
                    let suffix = if lshort {
                        match list_checked_exec(remaining, Some(rt.default_age(rage))) {
                            None => None,
                            Some(other) => unify_inner_exec(lt.default_age(lage), other, b2, fuel),
                        }
                    } else {
                        match list_checked_exec(remaining, Some(lt.default_age(lage))) {
                            None => None,
                            Some(other) => unify_inner_exec(other, rt.default_age(rage), b2, fuel),
                        }
                    };
                    match suffix {
                        None => None,
                        Some((s, b3)) => match list_checked_exec(unified, Some(s)) {
                            None => None,
                            Some(p) => Some((p, b3)),
                        },
                    }
                },
            }
        },
    }
}

/// Two complete sets of fields unified pairwise; see [`unify_fields`].
fn unify_fields_exec(l: FieldList, r: FieldList, acc: FieldList, b: Binding, fuel: u64) -> (res: Option<(FieldList, Binding)>)
    requires
        b@.wf(),
    ensures
        match res {
            None => unify_fields(l, r, acc, b@, fuel as nat) is None,
            Some((out, b2)) => unify_fields(l, r, acc, b@, fuel as nat) == Some((out, b2@)) && b2@.wf(),
        },
    decreases fuel, fields_len(l) + 1,
{
    match (l, r) {
        (FieldList::Nil, FieldList::Nil) => Some((acc, b)),
        (FieldList::Cons(lk, lp, lrest), FieldList::Cons(rk, rp, rrest)) => if lk != rk {
            None
        } else {
            match unify_inner_exec(lp, rp, b, fuel) {
                None => None,
                Some((p, b2)) => unify_fields_exec(*lrest, *rrest, acc.insert(lk, p), b2, fuel),
            }
        },
        _ => None,
    }
}

/// Fields of `part` unified with those of the same names in `full`; see
/// [`unify_fields_partial`].
fn unify_fields_partial_exec(part: FieldList, full: FieldList, acc: FieldList, b: Binding, fuel: u64) -> (res: Option<(FieldList, FieldList, Binding)>)
    requires
        b@.wf(),
    ensures
        match res {
            None => unify_fields_partial(part, full, acc, b@, fuel as nat) is None,
            Some((out, rest, b2)) => unify_fields_partial(part, full, acc, b@, fuel as nat) == Some((out, rest, b2@)) && b2@.wf(),
        },
    decreases fuel, fields_len(part) + 1,
{
    match part {
        FieldList::Nil => Some((acc, full, b)),
        FieldList::Cons(k, p, rest) => {
            let (remaining, removed) = full.remove(k);
            match removed {
                None => None,
                Some(other) => match unify_inner_exec(p, other, b, fuel) {
                    None => None,
                    Some((u, b2)) => unify_fields_partial_exec(*rest, remaining, acc.insert(k, u), b2, fuel),
                },
            }
        },
    }
}

/// The common fields of two records unified; see [`unify_fields_difference`].
fn unify_fields_difference_exec(l: FieldList, r: FieldList, b: Binding, fuel: u64) -> (res: Option<(FieldList, FieldList, FieldList, Binding)>)
    requires
        b@.wf(),
    ensures
        match res {
            None => unify_fields_difference(l, r, b@, fuel as nat) is None,
            Some((i, lr, rr, b2)) => unify_fields_difference(l, r, b@, fuel as nat) == Some((i, lr, rr, b2@)) && b2@.wf(),
        },
    decreases fuel, fields_len(l) + fields_len(r) + 1,
{
    match l {
        FieldList::Nil => Some((FieldList::Nil, FieldList::Nil, r, b)),
        FieldList::Cons(lk, lp, lrest) => match r {
            FieldList::Nil => Some((FieldList::Nil, FieldList::Cons(lk, lp, lrest), FieldList::Nil, b)),
            FieldList::Cons(rk, rp, rrest) => {
                if lk == rk {
                    match unify_inner_exec(lp, rp, b, fuel) {
                        None => None,
                        Some((p, b2)) => match unify_fields_difference_exec(*lrest, *rrest, b2, fuel) {
                            None => None,
                            Some((i, lr, rr, b3)) => Some((FieldList::Cons(lk, p, Box::new(i)), lr, rr, b3)),
                        },
                    }
                } else if lk.index() < rk.index() {
                    match unify_fields_difference_exec(*lrest, FieldList::Cons(rk, rp, rrest), b, fuel) {
                        None => None,
                        Some((i, lr, rr, b2)) => Some((i, FieldList::Cons(lk, lp, Box::new(lr)), rr, b2)),
                    }
                } else {
                    match unify_fields_difference_exec(FieldList::Cons(lk, lp, lrest), *rrest, b, fuel) {
                        None => None,
                        Some((i, lr, rr, b2)) => Some((i, lr, FieldList::Cons(rk, rp, Box::new(rr)), b2)),
                    }
                }
            },
        },
    }
}

/// Two records unified; see [`unify_records`].
fn unify_records_exec(
    lfields: FieldList,
    ltail: Option<Pattern>,
    lage: Option<usize>,
    rfields: FieldList,
    rtail: Option<Pattern>,
    rage: Option<usize>,
    b: Binding,
    fuel: u64,
) -> (res: Option<(Pattern, Binding)>)
    requires
        b@.wf(),
    ensures
        same_unified(res, unify_records(lfields, ltail, lage, rfields, rtail, rage, b@, fuel as nat)),
    decreases fuel, 1nat,
{
    if fuel == 0 {
        return None;
    }
    let sub = fuel - 1;
    let l = aged_fields(&lfields, lage);
    let r = aged_fields(&rfields, rage);
    match (ltail, rtail) {
        (None, None) => {
            if !same_field_count(&l, &r) {
                return None;
            }
            match unify_fields_exec(l, r, FieldList::Nil, b, sub) {
                None => None,
                Some((fields, b2)) => Some((Pattern::record(fields, None), b2)),
            }
        },
        (None, Some(rt)) => unify_records_exec(rfields, Some(rt), rage, lfields, None, lage, b, sub),
        (Some(tail), None) => {
            if !tail.kind.is_variable() {
                return None;
            }
            let ident = variable_of(&tail.kind);
            match unify_fields_partial_exec(l, r, FieldList::Nil, b, sub) {
                None => None,
                Some((output, rest, b2)) => match b2.get(ident.set_current(lage)) {
                    None => None,
                    Some(tail_pat) => {
                        let rest_pat = Pattern::record(rest, None);
                        match unify_inner_exec(tail_pat, rest_pat, b2, fuel) {
                            None => None,
                            Some((tail2, b3)) => match record_checked_exec(output, Some(tail2)) {
                                None => None,
                                Some(p) => Some((p, b3)),
                            },
                        }
                    },
                },
            }
        },
        (Some(lt), Some(rt)) => match unify_fields_difference_exec(l, r, b, sub) {
            None => None,
            Some((intersection, lrest, rrest, b1)) => {
                let mut b2 = b1;
                let var = b2.fresh_variable();
                let shared = Pattern::from_kind(PatternKind::Variable(var));
                let ghost shared0 = shared;
                let complete = Pattern::record(lrest.copy().extend(rrest.copy()), Some(shared));
                proof {
                    assert(record_tail_ok(Some(shared0)));
                    if !(fields_extend(lrest, rrest) is Nil) {
                        assert(*complete.kind == PatternKind::Record(fields_extend(lrest, rrest), Some(shared0)));
                        assert(record_tail_ok(Some(complete)));
                    }
                }
                let new_lt = record_checked_exec(lrest, Some(lt.default_age(lage)));
                let new_rt = record_checked_exec(rrest, Some(rt.default_age(rage)));
                match (new_lt, new_rt) {
                    (Some(new_lt), Some(new_rt)) => match unify_inner_exec(new_lt, complete.copy(), b2, fuel) {
                        None => None,
                        Some((_, b3)) => match unify_inner_exec(new_rt, complete.copy(), b3, fuel) {
                            None => None,
                            Some((_, b4)) => Some((Pattern::record(intersection, Some(complete)), b4)),
                        },
                    },
                    _ => None,
                }
            },
        },
    }
}

/// Unifies `lhs` with `rhs` in the current generation of `binding`, returning the binding
/// that makes them equal, or `None` when they cannot be unified; see
/// [`unify_patterns_spec`].
pub fn unify_patterns(lhs: Pattern, rhs: Pattern, binding: Binding) -> (r: Option<Binding>)
    requires
        binding@.wf(),
    ensures
        match r {
            Some(b) => unify_patterns_spec(lhs, rhs, binding@, UNIFY_FUEL as nat) == Some(b@) && b@.wf(),
            None => unify_patterns_spec(lhs, rhs, binding@, UNIFY_FUEL as nat) is None,
        },
{
    let g = binding.generation();
    match unify_inner_exec(lhs.default_age(Some(g)), rhs.default_age(Some(g)), binding, UNIFY_FUEL) {
        Some((_, b)) => Some(b),
        None => None,
    }
}

/// Unifies a pattern of the previous generation, `lhs`, with one of the current
/// generation, `rhs`, as when the arguments of a query are unified with the head of a rule.
pub fn unify_patterns_new_generation(lhs: Pattern, rhs: Pattern, binding: Binding) -> (r: Option<Binding>)
    requires
        binding@.wf(),
        binding@.generations.len() >= 2,
    ensures
        match r {
            Some(b) => unify_inner(
                with_default_age(lhs, Some(binding@.generations[binding@.generations.len() - 2])),
                with_default_age(rhs, Some(binding@.generation())),
                binding@,
                UNIFY_FUEL as nat,
            ) matches Some((_, b2)) && b2 == b@ && b@.wf(),
            None => unify_inner(
                with_default_age(lhs, Some(binding@.generations[binding@.generations.len() - 2])),
                with_default_age(rhs, Some(binding@.generation())),
                binding@,
                UNIFY_FUEL as nat,
            ) is None,
        },
{
    let prev = binding.prev_generation();
    let g = binding.generation();
    match unify_inner_exec(lhs.default_age(Some(prev)), rhs.default_age(Some(g)), binding, UNIFY_FUEL) {
        Some((_, b)) => Some(b),
        None => None,
    }
}


// ------------------------------------------------------------------------------------
// Entering a rule
// ------------------------------------------------------------------------------------

/// The variables of a sequence of patterns, in order.
pub open spec fn patterns_variables(ps: Seq<Pattern>) -> Seq<Variable>
    decreases ps.len(),
{
    if ps.len() == 0 {
        Seq::empty()
    } else {
        pattern_variables(ps[0]) + patterns_variables(ps.drop_first())
    }
}

/// The entries with each of `vars` in turn, placed in generation `g`, bound to itself.
pub open spec fn bind_selves(entries: Seq<(Variable, Pattern)>, vars: Seq<Variable>, g: usize) -> Seq<(Variable, Pattern)>
    decreases vars.len(),
{
    if vars.len() == 0 {
        entries
    } else {
        let v = set_current(vars.last(), Some(g));
        bind_entry(bind_selves(entries, vars.drop_last(), g), v, self_pattern(v))
    }
}

/// The binding after unifying `lhs`, a pattern of the previous generation, with `rhs`, a
/// pattern of the current one.
pub open spec fn unify_across(lhs: Pattern, rhs: Pattern, b: BindingView) -> Option<BindingView> {
    match unify_inner(
        with_default_age(lhs, Some(b.generations[b.generations.len() - 2])),
        with_default_age(rhs, Some(b.generation())),
        b,
        UNIFY_FUEL as nat,
    ) {
        Some((_, b2)) => Some(b2),
        None => None,
    }
}

/// Each pattern of `source` unified across generations with the pattern at the same place
/// in `destination`, in order, as far as the shorter of the two goes.
pub open spec fn unify_across_all(source: Seq<Pattern>, destination: Seq<Pattern>, b: BindingView) -> Option<BindingView>
    decreases source.len(),
{
    if source.len() == 0 || destination.len() == 0 {
        Some(b)
    } else {
        match unify_across(source[0], destination[0], b) {
            None => None,
            Some(b2) => unify_across_all(source.drop_first(), destination.drop_first(), b2),
        }
    }
}

/// The binding in which a new generation has started: the next generation number is the
/// current one, and the variables of `destination` and `body_variables`, placed in it, are
/// each bound to themselves.
pub open spec fn started_generation(b: BindingView, body_variables: Seq<Variable>, destination: Seq<Pattern>) -> BindingView {
    let g = b.next_generation;
    BindingView {
        entries: bind_selves(b.entries, patterns_variables(destination) + body_variables, g),
        generations: b.generations.push(g),
        next_generation: (g + 1) as usize,
    }
}

/// The binding for evaluating a rule whose head holds `destination` and whose body has the
/// variables `body_variables`, queried with the arguments `source`; `None` when the
/// arguments do not unify with the head.
pub open spec fn start_generation_spec(b: BindingView, body_variables: Seq<Variable>, source: Seq<Pattern>, destination: Seq<Pattern>) -> Option<BindingView> {
    unify_across_all(source, destination, started_generation(b, body_variables, destination))
}

impl Binding {
    /// Starts the evaluation of a rule: a new generation begins, the variables of its head
    /// (`destination`) and body are bound to themselves in it, and each argument of the
    /// query (`source`, from the previous generation) is unified with the pattern at the
    /// same place in the head. `None` when an argument does not unify.
    pub fn start_generation(&self, body_variables: &[Variable], source: &[Pattern], destination: &[Pattern]) -> (r: Option<Binding>)
        requires
            self@.wf(),
            self@.next_generation < usize::MAX,
        ensures
            match r {
                Some(b) => start_generation_spec(self@, body_variables@, source@, destination@) == Some(b@) && b@.wf(),
                None => start_generation_spec(self@, body_variables@, source@, destination@) is None,
            },
    {
        let mut binding = self.copy();
        binding.push_generation();
        let g = binding.generation();
        let mut vars: Vec<Variable> = Vec::new();
        let mut k: usize = 0;
        while k < destination.len()
            invariant
                0 <= k <= destination@.len(),
                vars@ == patterns_variables(destination@.subrange(0, k as int)),
            decreases destination@.len() - k,
        {
            proof {
                lemma_patterns_variables_push(destination@.subrange(0, k as int), destination@[k as int]);
                assert(destination@.subrange(0, k as int).push(destination@[k as int]) =~= destination@.subrange(0, k as int + 1));
            }
            destination[k].collect_variables(&mut vars);
            k = k + 1;
        }
        proof {
            assert(destination@.subrange(0, destination@.len() as int) =~= destination@);
            assert(vars@ =~= patterns_variables(destination@) + body_variables@.subrange(0, 0));
        }
        let mut m: usize = 0;
        while m < body_variables.len()
            invariant
                0 <= m <= body_variables@.len(),
                vars@ == patterns_variables(destination@) + body_variables@.subrange(0, m as int),
            decreases body_variables@.len() - m,
        {
            vars.push(body_variables[m]);
            m = m + 1;
            proof {
                assert(vars@ =~= patterns_variables(destination@) + body_variables@.subrange(0, m as int));
            }
        }
        proof {
            assert(destination@.subrange(0, destination@.len() as int) =~= destination@);
            assert(body_variables@.subrange(0, body_variables@.len() as int) =~= body_variables@);
            assert(vars@ =~= patterns_variables(destination@) + body_variables@);
        }
        let ghost pushed = binding@;
        let mut i: usize = 0;
        while i < vars.len()
            invariant
                0 <= i <= vars@.len(),
                binding@.wf(),
                g == pushed.generation(),
                pushed.generations.len() >= 2,
                binding@ == (BindingView { entries: bind_selves(pushed.entries, vars@.subrange(0, i as int), g), ..pushed }),
            decreases vars@.len() - i,
        {
            let var = vars[i].set_current(Some(g));
            binding.set(var, Pattern::from_kind(PatternKind::Variable(var)));
            i = i + 1;
            proof {
                assert(vars@.subrange(0, i as int).drop_last() =~= vars@.subrange(0, i as int - 1));
            }
        }
        proof {
            assert(vars@.subrange(0, vars@.len() as int) =~= vars@);
            assert(binding@ == started_generation(self@, body_variables@, destination@));
        }
        let n: usize = if source.len() < destination.len() { source.len() } else { destination.len() };
        let mut j: usize = 0;
        proof {
            assert(source@.subrange(0, source@.len() as int) =~= source@);
            assert(destination@.subrange(0, destination@.len() as int) =~= destination@);
        }
        while j < n
            invariant
                0 <= j <= n,
                n <= source@.len(),
                n <= destination@.len(),
                n == source@.len() || n == destination@.len(),
                binding@.wf(),
                binding@.generations.len() >= 2,
                start_generation_spec(self@, body_variables@, source@, destination@)
                    == unify_across_all(source@.subrange(j as int, source@.len() as int), destination@.subrange(j as int, destination@.len() as int), binding@),
            decreases n - j,
        {
            let ghost before = binding@;
            proof {
                let s = source@.subrange(j as int, source@.len() as int);
                let d = destination@.subrange(j as int, destination@.len() as int);
                assert(s.drop_first() =~= source@.subrange(j as int + 1, source@.len() as int));
                assert(d.drop_first() =~= destination@.subrange(j as int + 1, destination@.len() as int));
                assert(s[0] == source@[j as int]);
                assert(d[0] == destination@[j as int]);
                crate::unify_laws::lemma_unify_extends(
                    with_default_age(source@[j as int], Some(before.generations[before.generations.len() - 2])),
                    with_default_age(destination@[j as int], Some(before.generation())),
                    before,
                    UNIFY_FUEL as nat,
                );
            }
            match unify_patterns_new_generation(source[j].copy(), destination[j].copy(), binding) {
                None => return None,
                Some(b) => {
                    binding = b;
                },
            }
            j = j + 1;
        }
        proof {
            if n == source@.len() {
                assert(source@.subrange(j as int, source@.len() as int).len() == 0);
            } else {
                assert(destination@.subrange(j as int, destination@.len() as int).len() == 0);
            }
        }
        Some(binding)
    }
}

/// The variables of some patterns followed by those of one more.
pub proof fn lemma_patterns_variables_push(ps: Seq<Pattern>, p: Pattern)
    ensures
        patterns_variables(ps.push(p)) == patterns_variables(ps) + pattern_variables(p),
    decreases ps.len(),
{
    if ps.len() == 0 {
        let q = ps.push(p);
        assert(q[0] == p);
        assert(q.drop_first() =~= Seq::<Pattern>::empty());
        assert(patterns_variables(q.drop_first()) == Seq::<Variable>::empty());
        assert(patterns_variables(q) =~= pattern_variables(p));
        assert(patterns_variables(ps) == Seq::<Variable>::empty());
    } else {
        lemma_patterns_variables_push(ps.drop_first(), p);
        assert(ps.push(p).drop_first() =~= ps.drop_first().push(p));
        assert(patterns_variables(ps.push(p)) =~= patterns_variables(ps) + pattern_variables(p));
    }
}

} // verus!

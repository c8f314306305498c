//! Applying a binding to a pattern: replacing its bound variables by their values.
use crate::binding::{Binding, BindingView, lookup};
use crate::pattern::{
    Pattern, PatternKind, PatternList, FieldList, with_default_age, pattern_of, list_append,
    fields_extend, make_record, record_tail_ok, list_len, fields_len, list_seq,
};
use crate::variable::{Variable, set_current};
use crate::atom::Atom;
use crate::pattern::fields_insert;
use vstd::prelude::*;

verus! {

/// Why a binding could not be applied to a pattern.
#[derive(Clone, Copy, PartialEq, Eq, Structural, Debug)]
pub enum BindingError {
    /// The pattern contains variables that are not relevant to this binding.
    IrrelevantVariable,
    /// The rest of a list or record was bound to something that is not a list or record.
    IllegalTail,
    /// The pattern is nested too deeply to be resolved.
    Exhausted,
}

/// The number of nested steps that [`Binding::apply`] may take.
pub const APPLY_FUEL: u64 = 0xffff_ffff_ffff_ffffu64;

/// The pattern with every bound variable replaced, recursively, by its value in `b`; the
/// variables in it live in the pattern's age, or in the current generation when it has
/// none.
pub open spec fn apply_pattern(b: BindingView, p: Pattern, fuel: nat) -> Result<Pattern, BindingError>
    decreases fuel, 0nat,
{
    if fuel == 0 {
        Err(BindingError::Exhausted)
    } else {
        let f = (fuel - 1) as nat;
        let age = match p.age {
            Some(a) => Some(a),
            None => Some(b.generation()),
        };
        match *p.kind {
            PatternKind::Variable(variable) => {
                let v = set_current(variable, age);
                match lookup(b.entries, v) {
                    None => Err(BindingError::IrrelevantVariable),
                    Some(q) => if *q.kind == PatternKind::Variable(v) {
                        Ok(q)
                    } else {
                        apply_pattern(b, with_default_age(q, age), f)
                    },
                }
            },
            PatternKind::List(items, rest) => match apply_list(b, items, age, f) {
                Err(e) => Err(e),
                Ok(items2) => match rest {
                    None => Ok(pattern_of(PatternKind::List(items2, None))),
                    Some(r) => match apply_pattern(b, with_default_age(r, age), f) {
                        Err(e) => Err(e),
                        Ok(r2) => match *r2.kind {
                            PatternKind::List(head, rest2) => Ok(pattern_of(PatternKind::List(list_append(items2, head), rest2))),
                            PatternKind::Variable(..) => Ok(pattern_of(PatternKind::List(items2, Some(r2)))),
                            _ => Err(BindingError::IllegalTail),
                        },
                    },
                },
            },
            PatternKind::Record(fields, rest) => match apply_fields(b, fields, age, f) {
                Err(e) => Err(e),
                Ok(fields2) => {
                    let joined: Result<(FieldList, Option<Pattern>), BindingError> = match rest {
                        None => Ok((fields2, None)),
                        Some(r) => match apply_pattern(b, with_default_age(r, age), f) {
                            Err(e) => Err(e),
                            Ok(r2) => match *r2.kind {
                                PatternKind::Record(head, rest2) => Ok((fields_extend(fields2, head), rest2)),
                                PatternKind::Variable(..) => Ok((fields2, Some(r2))),
                                _ => Err(BindingError::IllegalTail),
                            },
                        },
                    };
                    match joined {
                        Err(e) => Err(e),
                        Ok((fs, t)) => if record_tail_ok(t) {
                            Ok(pattern_of(make_record(fs, t)))
                        } else {
                            Err(BindingError::IllegalTail)
                        },
                    }
                },
            },
            PatternKind::Struct(name, contents) => match contents {
                None => Ok(pattern_of(PatternKind::Struct(name, None))),
                Some(c) => match apply_pattern(b, with_default_age(c, age), f) {
                    Err(e) => Err(e),
                    Ok(c2) => Ok(pattern_of(PatternKind::Struct(name, Some(c2)))),
                },
            },
            PatternKind::Literal(..) => Ok(p),
            PatternKind::Any(..) => Ok(p),
            PatternKind::Bound => Ok(pattern_of(PatternKind::Bound)),
            PatternKind::Unbound => Ok(pattern_of(PatternKind::Unbound)),
            PatternKind::All(items) => match apply_list(b, items, age, f) {
                Err(e) => Err(e),
                Ok(items2) => Ok(pattern_of(PatternKind::All(items2))),
            },
        }
    }
}

/// The binding applied to each pattern of a list, at age `age`.
pub open spec fn apply_list(b: BindingView, l: PatternList, age: Option<usize>, fuel: nat) -> Result<PatternList, BindingError>
    decreases fuel, list_len(l) + 1,
{
    match l {
        PatternList::Nil => Ok(PatternList::Nil),
        PatternList::Cons(p, rest) => match apply_pattern(b, with_default_age(p, age), fuel) {
            Err(e) => Err(e),
            Ok(p2) => match apply_list(b, *rest, age, fuel) {
                Err(e) => Err(e),
                Ok(rest2) => Ok(PatternList::Cons(p2, Box::new(rest2))),
            },
        },
    }
}

/// The binding applied to each field of a record, at age `age`.
pub open spec fn apply_fields(b: BindingView, f: FieldList, age: Option<usize>, fuel: nat) -> Result<FieldList, BindingError>
    decreases fuel, fields_len(f) + 1,
{
    match f {
        FieldList::Nil => Ok(FieldList::Nil),
        FieldList::Cons(k, p, rest) => match apply_pattern(b, with_default_age(p, age), fuel) {
            Err(e) => Err(e),
            Ok(p2) => match apply_fields(b, *rest, age, fuel) {
                Err(e) => Err(e),
                Ok(rest2) => Ok(FieldList::Cons(k, p2, Box::new(rest2))),
            },
        },
    }
}

/// More fuel does not change an application that did not run out of it: whatever
/// `apply_pattern` gives with `f1` steps, other than `Exhausted`, it gives with any `f2`
/// of at least `f1` steps.
pub proof fn lemma_apply_fuel(b: BindingView, p: Pattern, f1: nat, f2: nat)
    requires
        f1 <= f2,
        apply_pattern(b, p, f1) != Result::<Pattern, BindingError>::Err(BindingError::Exhausted),
    ensures
        apply_pattern(b, p, f2) == apply_pattern(b, p, f1),
    decreases f1, 0nat,
{
    if f1 > 0 {
        let g1 = (f1 - 1) as nat;
        let g2 = (f2 - 1) as nat;
        let age = match p.age {
            Some(a) => Some(a),
            None => Some(b.generation()),
        };
        match *p.kind {
            PatternKind::Variable(variable) => {
                let v = set_current(variable, age);
                match lookup(b.entries, v) {
                    None => {},
                    Some(q) => if *q.kind != PatternKind::Variable(v) {
                        lemma_apply_fuel(b, with_default_age(q, age), g1, g2);
                    },
                }
            },
            PatternKind::List(items, rest) => {
                if apply_list(b, items, age, g1) != Result::<PatternList, BindingError>::Err(BindingError::Exhausted) {
                    lemma_apply_list_fuel(b, items, age, g1, g2);
                }
                match rest {
                    None => {},
                    Some(r) => if apply_pattern(b, with_default_age(r, age), g1) != Result::<Pattern, BindingError>::Err(BindingError::Exhausted) {
                        lemma_apply_fuel(b, with_default_age(r, age), g1, g2);
                    },
                }
            },
            PatternKind::Record(fields, rest) => {
                if apply_fields(b, fields, age, g1) != Result::<FieldList, BindingError>::Err(BindingError::Exhausted) {
                    lemma_apply_fields_fuel(b, fields, age, g1, g2);
                }
                match rest {
                    None => {},
                    Some(r) => if apply_pattern(b, with_default_age(r, age), g1) != Result::<Pattern, BindingError>::Err(BindingError::Exhausted) {
                        lemma_apply_fuel(b, with_default_age(r, age), g1, g2);
                    },
                }
            },
            PatternKind::Struct(_, contents) => match contents {
                None => {},
                Some(c) => if apply_pattern(b, with_default_age(c, age), g1) != Result::<Pattern, BindingError>::Err(BindingError::Exhausted) {
                    lemma_apply_fuel(b, with_default_age(c, age), g1, g2);
                },
            },
            PatternKind::All(items) => {
                if apply_list(b, items, age, g1) != Result::<PatternList, BindingError>::Err(BindingError::Exhausted) {
                    lemma_apply_list_fuel(b, items, age, g1, g2);
                }
            },
            _ => {},
        }
    }
}

/// [`lemma_apply_fuel`] for the patterns of a list.
pub proof fn lemma_apply_list_fuel(b: BindingView, l: PatternList, age: Option<usize>, f1: nat, f2: nat)
    requires
        f1 <= f2,
        apply_list(b, l, age, f1) != Result::<PatternList, BindingError>::Err(BindingError::Exhausted),
    ensures
        apply_list(b, l, age, f2) == apply_list(b, l, age, f1),
    decreases f1, list_len(l) + 1,
{
    match l {
        PatternList::Nil => {},
        PatternList::Cons(p, rest) => {
            if apply_pattern(b, with_default_age(p, age), f1) != Result::<Pattern, BindingError>::Err(BindingError::Exhausted) {
                lemma_apply_fuel(b, with_default_age(p, age), f1, f2);
            }
            if apply_list(b, *rest, age, f1) != Result::<PatternList, BindingError>::Err(BindingError::Exhausted) {
                lemma_apply_list_fuel(b, *rest, age, f1, f2);
            }
        },
    }
}

/// [`lemma_apply_fuel`] for the fields of a record.
pub proof fn lemma_apply_fields_fuel(b: BindingView, f: FieldList, age: Option<usize>, f1: nat, f2: nat)
    requires
        f1 <= f2,
        apply_fields(b, f, age, f1) != Result::<FieldList, BindingError>::Err(BindingError::Exhausted),
    ensures
        apply_fields(b, f, age, f2) == apply_fields(b, f, age, f1),
    decreases f1, fields_len(f) + 1,
{
    match f {
        FieldList::Nil => {},
        FieldList::Cons(_, p, rest) => {
            if apply_pattern(b, with_default_age(p, age), f1) != Result::<Pattern, BindingError>::Err(BindingError::Exhausted) {
                lemma_apply_fuel(b, with_default_age(p, age), f1, f2);
            }
            if apply_fields(b, *rest, age, f1) != Result::<FieldList, BindingError>::Err(BindingError::Exhausted) {
                lemma_apply_fields_fuel(b, *rest, age, f1, f2);
            }
        },
    }
}

impl Binding {
    /// This binding applied to `pattern`; see [`apply_pattern`].
    pub fn apply(&self, pattern: &Pattern) -> (r: Result<Pattern, BindingError>)
        requires
            self@.wf(),
        ensures
            r == apply_pattern(self@, *pattern, APPLY_FUEL as nat),
            r matches Ok(q) ==> applied(self@, q),
            r matches Ok(q) ==> (apply_pattern(self@, q, APPLY_FUEL as nat) matches Ok(q2) && same_term(q2, q)),
    {
        proof {
            lemma_apply_gives_applied(self@, *pattern, APPLY_FUEL as nat);
            lemma_apply_is_idempotent(self@, *pattern);
        }
        self.apply_with(pattern, APPLY_FUEL)
    }

    /// This binding applied to `pattern`, in at most `fuel` nested steps.
    pub fn apply_with(&self, pattern: &Pattern, fuel: u64) -> (r: Result<Pattern, BindingError>)
        requires
            self@.wf(),
        ensures
            r == apply_pattern(self@, *pattern, fuel as nat),
        decreases fuel, 0nat,
    {
        if fuel == 0 {
            return Err(BindingError::Exhausted);
        }
        let f = fuel - 1;
        let age = match pattern.age {
            Some(a) => Some(a),
            None => Some(self.generation()),
        };
        match &*pattern.kind {
            PatternKind::Variable(variable) => {
                let v = variable.set_current(age);
                match self.lookup(v) {
                    None => Err(BindingError::IrrelevantVariable),
                    Some(q) => {
                        let is_self = match &*q.kind {
                            PatternKind::Variable(w) => *w == v,
                            _ => false,
                        };
                        if is_self {
                            Ok(q.copy())
                        } else {
                            self.apply_with(&q.default_age(age), f)
                        }
                    },
                }
            },
            PatternKind::List(items, rest) => match self.apply_list(items, age, f) {
                Err(e) => Err(e),
                Ok(items2) => match rest {
                    None => Ok(Pattern::from_kind(PatternKind::List(items2, None))),
                    Some(r) => match self.apply_with(&r.default_age(age), f) {
                        Err(e) => Err(e),
                        Ok(r2) => {
                            let is_var = r2.kind.is_variable();
                            if is_var {
                                Ok(Pattern::from_kind(PatternKind::List(items2, Some(r2))))
                            } else {
                                let Pattern { kind, age: _ } = r2;
                                match *kind {
                                    PatternKind::List(head, rest2) => Ok(Pattern::from_kind(PatternKind::List(items2.append(head), rest2))),
                                    _ => Err(BindingError::IllegalTail),
                                }
                            }
                        },
                    },
                },
            },
            PatternKind::Record(fields, rest) => match self.apply_fields(fields, age, f) {
                Err(e) => Err(e),
                Ok(fields2) => {
                    let joined: Result<(FieldList, Option<Pattern>), BindingError> = match rest {
                        None => Ok((fields2, None)),
                        Some(r) => match self.apply_with(&r.default_age(age), f) {
                            Err(e) => Err(e),
                            Ok(r2) => {
                                if r2.kind.is_variable() {
                                    Ok((fields2, Some(r2)))
                                } else {
                                    let Pattern { kind, age: _ } = r2;
                                    match *kind {
                                        PatternKind::Record(head, rest2) => Ok((fields2.extend(head), rest2)),
                                        _ => Err(BindingError::IllegalTail),
                                    }
                                }
                            },
                        },
                    };
                    match joined {
                        Err(e) => Err(e),
                        Ok((fs, t)) => {
                            if crate::unify::record_tail_ok_exec(&t) {
                                Ok(Pattern::from_kind(PatternKind::record(fs, t)))
                            } else {
                                Err(BindingError::IllegalTail)
                            }
                        },
                    }
                },
            },
            PatternKind::Struct(name, contents) => match contents {
                None => Ok(Pattern::from_kind(PatternKind::Struct(*name, None))),
                Some(c) => match self.apply_with(&c.default_age(age), f) {
                    Err(e) => Err(e),
                    Ok(c2) => Ok(Pattern::from_kind(PatternKind::Struct(*name, Some(c2)))),
                },
            },
            PatternKind::Literal(..) => Ok(pattern.copy()),
            PatternKind::Any(..) => Ok(pattern.copy()),
            PatternKind::Bound => Ok(Pattern::from_kind(PatternKind::Bound)),
            PatternKind::Unbound => Ok(Pattern::from_kind(PatternKind::Unbound)),
            PatternKind::All(items) => match self.apply_list(items, age, f) {
                Err(e) => Err(e),
                Ok(items2) => Ok(Pattern::from_kind(PatternKind::All(items2))),
            },
        }
    }

    /// This binding applied to each pattern of a list; see [`apply_list`].
    fn apply_list(&self, l: &PatternList, age: Option<usize>, fuel: u64) -> (r: Result<PatternList, BindingError>)
        requires
            self@.wf(),
        ensures
            r == apply_list(self@, *l, age, fuel as nat),
        decreases fuel, list_len(*l) + 1,
    {
        match l {
            PatternList::Nil => Ok(PatternList::Nil),
            PatternList::Cons(p, rest) => match self.apply_with(&p.default_age(age), fuel) {
                Err(e) => Err(e),
                Ok(p2) => match self.apply_list(&**rest, age, fuel) {
                    Err(e) => Err(e),
                    Ok(rest2) => Ok(PatternList::Cons(p2, Box::new(rest2))),
                },
            },
        }
    }

    /// This binding applied to each field of a record; see [`apply_fields`].
    fn apply_fields(&self, fields: &FieldList, age: Option<usize>, fuel: u64) -> (r: Result<FieldList, BindingError>)
        requires
            self@.wf(),
        ensures
            r == apply_fields(self@, *fields, age, fuel as nat),
        decreases fuel, fields_len(*fields) + 1,
    {
        match fields {
            FieldList::Nil => Ok(FieldList::Nil),
            FieldList::Cons(k, p, rest) => match self.apply_with(&p.default_age(age), fuel) {
                Err(e) => Err(e),
                Ok(p2) => match self.apply_fields(&**rest, age, fuel) {
                    Err(e) => Err(e),
                    Ok(rest2) => Ok(FieldList::Cons(*k, p2, Box::new(rest2))),
                },
            },
        }
    }
}


/// Whether `v` has the entry that marks a variable without a value: the variable itself.
pub open spec fn unbound_entry(b: BindingView, v: Variable) -> bool {
    &&& v.generation is Some
    &&& lookup(b.entries, v) matches Some(e) && *e.kind == PatternKind::Variable(v)
}

/// Whether `p` is in the form that applying `b` gives: each of its variables has a
/// generation and no value in `b`, and the rest of each of its lists and records is such
/// a variable, never another list or record.
pub open spec fn applied(b: BindingView, p: Pattern) -> bool
    decreases p,
{
    applied_kind(b, *p.kind)
}

/// [`applied`] for a shape.
pub open spec fn applied_kind(b: BindingView, k: PatternKind) -> bool
    decreases k,
{
    match k {
        PatternKind::Variable(v) => unbound_entry(b, v),
        PatternKind::Struct(_, Some(c)) => applied(b, c),
        PatternKind::List(items, rest) => applied_list(b, items) && applied_tail(b, rest),
        PatternKind::Record(fields, rest) => applied_fields(b, fields) && applied_tail(b, rest),
        PatternKind::All(items) => applied_list(b, items),
        _ => true,
    }
}

/// [`applied`] for the rest of a list or record: none, or a variable without a value.
pub open spec fn applied_tail(b: BindingView, rest: Option<Pattern>) -> bool
    decreases rest,
{
    match rest {
        None => true,
        Some(r) => (*r.kind is Variable) && applied(b, r),
    }
}

/// [`applied`] for each pattern of a list.
pub open spec fn applied_list(b: BindingView, l: PatternList) -> bool
    decreases l,
{
    match l {
        PatternList::Nil => true,
        PatternList::Cons(p, rest) => applied(b, p) && applied_list(b, *rest),
    }
}

/// [`applied`] for each field of a record.
pub open spec fn applied_fields(b: BindingView, f: FieldList) -> bool
    decreases f,
{
    match f {
        FieldList::Nil => true,
        FieldList::Cons(_, p, rest) => applied(b, p) && applied_fields(b, *rest),
    }
}

proof fn lemma_append_applied(b: BindingView, x: PatternList, y: PatternList)
    requires
        applied_list(b, x),
        applied_list(b, y),
    ensures
        applied_list(b, list_append(x, y)),
    decreases x,
{
    if let PatternList::Cons(_, rest) = x {
        lemma_append_applied(b, *rest, y);
    }
}

proof fn lemma_insert_applied(b: BindingView, f: FieldList, k: Atom, p: Pattern)
    requires
        applied_fields(b, f),
        applied(b, p),
    ensures
        applied_fields(b, fields_insert(f, k, p)),
    decreases f,
{
    if let FieldList::Cons(_, _, rest) = f {
        lemma_insert_applied(b, *rest, k, p);
    }
}

proof fn lemma_extend_applied(b: BindingView, base: FieldList, extra: FieldList)
    requires
        applied_fields(b, base),
        applied_fields(b, extra),
    ensures
        applied_fields(b, fields_extend(base, extra)),
    decreases extra,
{
    if let FieldList::Cons(k, p, rest) = extra {
        lemma_insert_applied(b, base, k, p);
        lemma_extend_applied(b, fields_insert(base, k, p), *rest);
    }
}

/// Applying a binding leaves nothing more to apply: every variable of the result has a
/// generation and no value in the binding, and the rest of every list and record in it is
/// such a variable, a list or record that was bound there having been merged in.
pub proof fn lemma_apply_gives_applied(b: BindingView, p: Pattern, fuel: nat)
    ensures
        apply_pattern(b, p, fuel) matches Ok(q) ==> applied(b, q),
    decreases fuel, 0nat,
{
    if fuel > 0 {
        let f = (fuel - 1) as nat;
        let age = match p.age {
            Some(a) => Some(a),
            None => Some(b.generation()),
        };
        match *p.kind {
            PatternKind::Variable(variable) => {
                let v = set_current(variable, age);
                match lookup(b.entries, v) {
                    None => {},
                    Some(q) => if *q.kind != PatternKind::Variable(v) {
                        lemma_apply_gives_applied(b, with_default_age(q, age), f);
                    } else {
                        assert(applied_kind(b, *q.kind));
                    },
                }
            },
            PatternKind::List(items, rest) => {
                lemma_apply_list_gives_applied(b, items, age, f);
                assert(applied_tail(b, None));
                if let Ok(items2) = apply_list(b, items, age, f) {
                    assert(applied_kind(b, PatternKind::List(items2, None)));
                }
                if let Some(r) = rest {
                    lemma_apply_gives_applied(b, with_default_age(r, age), f);
                    if let Ok(items2) = apply_list(b, items, age, f) {
                        if let Ok(r2) = apply_pattern(b, with_default_age(r, age), f) {
                            assert(applied_kind(b, *r2.kind));
                            if let PatternKind::List(head, rest2) = *r2.kind {
                                lemma_append_applied(b, items2, head);
                                assert(applied_tail(b, rest2));
                                assert(applied_kind(b, PatternKind::List(list_append(items2, head), rest2)));
                            } else if *r2.kind is Variable {
                                assert(applied_tail(b, Some(r2)));
                                assert(applied_kind(b, PatternKind::List(items2, Some(r2))));
                            }
                        }
                    }
                }
            },
            PatternKind::Record(fields, rest) => {
                lemma_apply_fields_gives_applied(b, fields, age, f);
                assert(applied_tail(b, None));
                if let Ok(fields2) = apply_fields(b, fields, age, f) {
                    assert(make_record(fields2, None) == PatternKind::Record(fields2, None));
                    assert(applied_kind(b, PatternKind::Record(fields2, None)));
                }
                if let Some(r) = rest {
                    lemma_apply_gives_applied(b, with_default_age(r, age), f);
                    if let Ok(fields2) = apply_fields(b, fields, age, f) {
                        if let Ok(r2) = apply_pattern(b, with_default_age(r, age), f) {
                            if let PatternKind::Record(head, rest2) = *r2.kind {
                                lemma_extend_applied(b, fields2, head);
                                assert(applied_kind(b, *r2.kind));
                                assert(applied_tail(b, rest2));
                                if let Some(t) = rest2 {
                                    assert(*t.kind is Variable);
                                }
                                assert(make_record(fields_extend(fields2, head), rest2)
                                    == PatternKind::Record(fields_extend(fields2, head), rest2));
                                assert(applied_kind(b, PatternKind::Record(fields_extend(fields2, head), rest2)));
                            } else if *r2.kind is Variable {
                                assert(make_record(fields2, Some(r2)) == PatternKind::Record(fields2, Some(r2)));
                                assert(applied_tail(b, Some(r2)));
                                assert(applied_kind(b, PatternKind::Record(fields2, Some(r2))));
                            }
                        }
                    }
                }
            },
            PatternKind::Struct(_, contents) => {
                if let Some(c) = contents {
                    lemma_apply_gives_applied(b, with_default_age(c, age), f);
                }
            },
            PatternKind::All(items) => {
                lemma_apply_list_gives_applied(b, items, age, f);
            },
            _ => {},
        }
    }
}

/// [`lemma_apply_gives_applied`] for the patterns of a list.
pub proof fn lemma_apply_list_gives_applied(b: BindingView, l: PatternList, age: Option<usize>, fuel: nat)
    ensures
        apply_list(b, l, age, fuel) matches Ok(q) ==> applied_list(b, q),
    decreases fuel, list_len(l) + 1,
{
    if let PatternList::Cons(p, rest) = l {
        lemma_apply_gives_applied(b, with_default_age(p, age), fuel);
        lemma_apply_list_gives_applied(b, *rest, age, fuel);
    }
}

/// [`lemma_apply_gives_applied`] for the fields of a record.
pub proof fn lemma_apply_fields_gives_applied(b: BindingView, f: FieldList, age: Option<usize>, fuel: nat)
    ensures
        apply_fields(b, f, age, fuel) matches Ok(q) ==> applied_fields(b, q),
    decreases fuel, fields_len(f) + 1,
{
    if let FieldList::Cons(_, p, rest) = f {
        lemma_apply_gives_applied(b, with_default_age(p, age), fuel);
        lemma_apply_fields_gives_applied(b, *rest, age, fuel);
    }
}

/// Whether two patterns are the same term: the same shapes, names, literals, items in
/// order, fields and variables, whatever the ages the patterns carry.
pub open spec fn same_term(p: Pattern, q: Pattern) -> bool
    decreases p,
{
    same_kind(*p.kind, *q.kind)
}

/// [`same_term`] for shapes.
pub open spec fn same_kind(k1: PatternKind, k2: PatternKind) -> bool
    decreases k1,
{
    match k1 {
        PatternKind::Struct(n1, c1) => match k2 {
            PatternKind::Struct(n2, c2) => n1 == n2 && same_option(c1, c2),
            _ => false,
        },
        PatternKind::List(i1, r1) => match k2 {
            PatternKind::List(i2, r2) => same_list(i1, i2) && same_option(r1, r2),
            _ => false,
        },
        PatternKind::Record(f1, r1) => match k2 {
            PatternKind::Record(f2, r2) => same_fields(f1, f2) && same_option(r1, r2),
            _ => false,
        },
        PatternKind::All(i1) => match k2 {
            PatternKind::All(i2) => same_list(i1, i2),
            _ => false,
        },
        _ => k1 == k2,
    }
}

/// [`same_term`] for optional patterns.
pub open spec fn same_option(o1: Option<Pattern>, o2: Option<Pattern>) -> bool
    decreases o1,
{
    match o1 {
        None => o2 is None,
        Some(p) => match o2 {
            Some(q) => same_term(p, q),
            None => false,
        },
    }
}

/// [`same_term`] for lists, item by item.
pub open spec fn same_list(l1: PatternList, l2: PatternList) -> bool
    decreases l1,
{
    match l1 {
        PatternList::Nil => l2 is Nil,
        PatternList::Cons(p, r1) => match l2 {
            PatternList::Cons(q, r2) => same_term(p, q) && same_list(*r1, *r2),
            PatternList::Nil => false,
        },
    }
}

/// [`same_term`] for fields, name by name in order.
pub open spec fn same_fields(f1: FieldList, f2: FieldList) -> bool
    decreases f1,
{
    match f1 {
        FieldList::Nil => f2 is Nil,
        FieldList::Cons(k1, p, r1) => match f2 {
            FieldList::Cons(k2, q, r2) => k1 == k2 && same_term(p, q) && same_fields(*r1, *r2),
            FieldList::Nil => false,
        },
    }
}

/// How deeply a pattern nests: 1 for a pattern with nothing inside it.
pub open spec fn pattern_depth(p: Pattern) -> nat
    decreases p,
{
    kind_depth(*p.kind)
}

/// [`pattern_depth`] for a shape.
pub open spec fn kind_depth(k: PatternKind) -> nat
    decreases k,
{
    match k {
        PatternKind::Struct(_, Some(c)) => 1 + pattern_depth(c),
        PatternKind::List(items, rest) => 1 + max_nat(list_depth(items), option_depth(rest)),
        PatternKind::Record(fields, rest) => 1 + max_nat(fields_depth(fields), option_depth(rest)),
        PatternKind::All(items) => 1 + list_depth(items),
        _ => 1,
    }
}

/// The greater of two numbers.
pub open spec fn max_nat(a: nat, b: nat) -> nat {
    if a < b { b } else { a }
}

/// [`pattern_depth`] for an optional pattern, 0 for none.
pub open spec fn option_depth(o: Option<Pattern>) -> nat
    decreases o,
{
    match o {
        None => 0,
        Some(p) => pattern_depth(p),
    }
}

/// The greatest [`pattern_depth`] of the patterns of a list, 0 for none.
pub open spec fn list_depth(l: PatternList) -> nat
    decreases l,
{
    match l {
        PatternList::Nil => 0,
        PatternList::Cons(p, rest) => max_nat(pattern_depth(p), list_depth(*rest)),
    }
}

/// The greatest [`pattern_depth`] of the fields of a record, 0 for none.
pub open spec fn fields_depth(f: FieldList) -> nat
    decreases f,
{
    match f {
        FieldList::Nil => 0,
        FieldList::Cons(_, p, rest) => max_nat(pattern_depth(p), fields_depth(*rest)),
    }
}

/// Applying a binding to a pattern that is already in applied form gives the same term back,
/// given as many steps as the pattern nests.
pub proof fn lemma_apply_applied(b: BindingView, q: Pattern, fuel: nat)
    requires
        applied(b, q),
        pattern_depth(q) <= fuel,
    ensures
        apply_pattern(b, q, fuel) matches Ok(r) && same_term(r, q),
    decreases fuel, 0nat,
{
    let f = (fuel - 1) as nat;
    let age = match q.age {
        Some(a) => Some(a),
        None => Some(b.generation()),
    };
    assert(applied_kind(b, *q.kind));
    match *q.kind {
        PatternKind::Variable(v) => {
            assert(set_current(v, age) == v);
            let e = lookup(b.entries, v).unwrap();
            assert(*e.kind == PatternKind::Variable(v));
            assert(same_kind(*e.kind, *q.kind));
            assert(fuel > 0);
            assert(lookup(b.entries, set_current(v, age)) == Some(e));
            assert(apply_pattern(b, q, fuel) == Ok::<Pattern, BindingError>(e));
            assert(same_term(e, q));
        },
        PatternKind::List(items, rest) => {
            lemma_apply_list_applied(b, items, age, f);
            if let Some(t) = rest {
                lemma_applied_default_age(b, t, age);
                assert(applied_kind(b, *t.kind));
                let v = (*t.kind)->Variable_0;
                assert(set_current(v, Some(age.unwrap())) == v);
                assert(*with_default_age(t, age).kind == *t.kind);
                let w = with_default_age(t, age);
                let wage = match w.age { Some(a) => Some(a), None => Some(b.generation()) };
                assert(set_current(v, wage) == v);
                let e = lookup(b.entries, v).unwrap();
                assert(pattern_depth(t) == 1);
                assert(option_depth(rest) == 1);
                assert(f >= 1);
                assert(*e.kind == PatternKind::Variable(v));
                assert(*w.kind == PatternKind::Variable(v));
                assert(apply_pattern(b, w, f) == Ok::<Pattern, BindingError>(e));
                assert(same_term(e, t));
                assert(same_option(Some(e), Some(t)));
            } else {
                assert(same_option(None, None));
            }
        },
        PatternKind::Record(fields, rest) => {
            lemma_apply_fields_applied(b, fields, age, f);
            if let Some(t) = rest {
                lemma_applied_default_age(b, t, age);
                assert(applied_kind(b, *t.kind));
                let v = (*t.kind)->Variable_0;
                let w = with_default_age(t, age);
                let wage = match w.age { Some(a) => Some(a), None => Some(b.generation()) };
                assert(set_current(v, wage) == v);
                let e = lookup(b.entries, v).unwrap();
                assert(record_tail_ok(Some(e)));
                assert(pattern_depth(t) == 1);
                assert(option_depth(rest) == 1);
                assert(f >= 1);
                assert(*e.kind == PatternKind::Variable(v));
                assert(*w.kind == PatternKind::Variable(v));
                assert(apply_pattern(b, w, f) == Ok::<Pattern, BindingError>(e));
                assert(same_term(e, t));
                assert(same_option(Some(e), Some(t)));
                if let Ok(fields2) = apply_fields(b, fields, age, f) {
                    assert(make_record(fields2, Some(e)) == PatternKind::Record(fields2, Some(e)));
                }
            } else {
                assert(same_option(None, None));
                if let Ok(fields2) = apply_fields(b, fields, age, f) {
                    assert(make_record(fields2, None) == PatternKind::Record(fields2, None));
                }
            }
        },
        PatternKind::Struct(_, contents) => {
            if let Some(c) = contents {
                lemma_applied_default_age(b, c, age);
                lemma_apply_applied(b, with_default_age(c, age), f);
                let c2 = apply_pattern(b, with_default_age(c, age), f)->Ok_0;
                assert(same_term(c2, with_default_age(c, age)));
                assert(same_term(c2, c));
                assert(same_option(Some(c2), Some(c)));
            } else {
                assert(same_option(None, None));
            }
        },
        PatternKind::All(items) => {
            lemma_apply_list_applied(b, items, age, f);
        },
        _ => {},
    }
}

/// Giving a pattern in applied form a default age keeps its shape.
proof fn lemma_applied_default_age(b: BindingView, p: Pattern, age: Option<usize>)
    requires
        applied(b, p),
    ensures
        *with_default_age(p, age).kind == *p.kind,
        applied(b, with_default_age(p, age)),
        pattern_depth(with_default_age(p, age)) == pattern_depth(p),
        forall|r: Pattern| same_term(r, with_default_age(p, age)) <==> same_term(r, p),
{
    assert(applied_kind(b, *p.kind));
}

/// [`lemma_apply_applied`] for the patterns of a list.
proof fn lemma_apply_list_applied(b: BindingView, l: PatternList, age: Option<usize>, fuel: nat)
    requires
        applied_list(b, l),
        list_depth(l) <= fuel,
    ensures
        apply_list(b, l, age, fuel) matches Ok(r) && same_list(r, l),
    decreases fuel, list_len(l) + 1,
{
    if let PatternList::Cons(p, rest) = l {
        lemma_applied_default_age(b, p, age);
        lemma_apply_applied(b, with_default_age(p, age), fuel);
        lemma_apply_list_applied(b, *rest, age, fuel);
        let p2 = apply_pattern(b, with_default_age(p, age), fuel)->Ok_0;
        assert(same_term(p2, p));
        let rest2 = apply_list(b, *rest, age, fuel)->Ok_0;
        assert(same_list(PatternList::Cons(p2, Box::new(rest2)), l));
    }
}

/// [`lemma_apply_applied`] for the fields of a record.
proof fn lemma_apply_fields_applied(b: BindingView, f: FieldList, age: Option<usize>, fuel: nat)
    requires
        applied_fields(b, f),
        fields_depth(f) <= fuel,
    ensures
        apply_fields(b, f, age, fuel) matches Ok(r) && same_fields(r, f),
    decreases fuel, fields_len(f) + 1,
{
    if let FieldList::Cons(k, p, rest) = f {
        lemma_applied_default_age(b, p, age);
        lemma_apply_applied(b, with_default_age(p, age), fuel);
        lemma_apply_fields_applied(b, *rest, age, fuel);
        let p2 = apply_pattern(b, with_default_age(p, age), fuel)->Ok_0;
        assert(same_term(p2, p));
        let rest2 = apply_fields(b, *rest, age, fuel)->Ok_0;
        assert(same_fields(FieldList::Cons(k, p2, Box::new(rest2)), f));
    }
}

/// Applying a binding twice gives the same term as applying it once: what a first
/// application gives comes back unchanged, up to ages, from a second one with as many steps
/// as it nests.
pub proof fn lemma_apply_twice(b: BindingView, p: Pattern, fuel: nat, fuel2: nat)
    requires
        apply_pattern(b, p, fuel) is Ok,
        pattern_depth(apply_pattern(b, p, fuel)->Ok_0) <= fuel2,
    ensures
        apply_pattern(b, apply_pattern(b, p, fuel)->Ok_0, fuel2) matches Ok(r)
            && same_term(r, apply_pattern(b, p, fuel)->Ok_0),
{
    lemma_apply_gives_applied(b, p, fuel);
    lemma_apply_applied(b, apply_pattern(b, p, fuel)->Ok_0, fuel2);
}

/// Applying a binding to the patterns of a list applies it to each pattern in turn: the
/// result has as many patterns, in the same order, each the application to the pattern
/// in that place.
pub proof fn lemma_apply_list_item_by_item(b: BindingView, l: PatternList, age: Option<usize>, fuel: nat)
    ensures
        apply_list(b, l, age, fuel) matches Ok(l2) ==> {
            &&& list_seq(l2).len() == list_seq(l).len()
            &&& forall|i: int| 0 <= i < list_seq(l).len()
                ==> apply_pattern(b, with_default_age(#[trigger] list_seq(l)[i], age), fuel) == Ok::<Pattern, BindingError>(list_seq(l2)[i])
        },
    decreases l,
{
    if let PatternList::Cons(p, rest) = l {
        lemma_apply_list_item_by_item(b, *rest, age, fuel);
        if let Ok(l2) = apply_list(b, l, age, fuel) {
            let rest2 = apply_list(b, *rest, age, fuel)->Ok_0;
            assert forall|i: int| 0 <= i < list_seq(l).len() implies
                apply_pattern(b, with_default_age(#[trigger] list_seq(l)[i], age), fuel) == Ok::<Pattern, BindingError>(list_seq(l2)[i]) by {
                if i > 0 {
                    assert(list_seq(l)[i] == list_seq(*rest)[i - 1]);
                    assert(list_seq(l2)[i] == list_seq(rest2)[i - 1]);
                }
            }
        }
    }
}

/// Applying a binding to a complete list gives a complete list of as many patterns, each
/// the application to the pattern in that place (at the list's age, or the current
/// generation when it has none).
pub proof fn lemma_apply_complete_list(b: BindingView, p: Pattern, fuel: nat)
    requires
        *p.kind matches PatternKind::List(_, None),
    ensures
        apply_pattern(b, p, fuel) matches Ok(q) ==> {
            let items = (*p.kind)->List_0;
            let age = if p.age is Some { p.age } else { Some(b.generation()) };
            &&& *q.kind matches PatternKind::List(items2, None)
            &&& list_seq(items2).len() == list_seq(items).len()
            &&& forall|i: int| 0 <= i < list_seq(items).len()
                ==> apply_pattern(b, with_default_age(#[trigger] list_seq(items)[i], age), (fuel - 1) as nat)
                    == Ok::<Pattern, BindingError>(list_seq(items2)[i])
        },
{
    if fuel > 0 {
        let age = if p.age is Some { p.age } else { Some(b.generation()) };
        lemma_apply_list_item_by_item(b, (*p.kind)->List_0, age, (fuel - 1) as nat);
    }
}

proof fn lemma_append_depth(x: PatternList, y: PatternList)
    ensures
        list_depth(list_append(x, y)) == max_nat(list_depth(x), list_depth(y)),
    decreases x,
{
    if let PatternList::Cons(_, rest) = x {
        lemma_append_depth(*rest, y);
    }
}

proof fn lemma_insert_depth(f: FieldList, k: Atom, p: Pattern)
    ensures
        fields_depth(fields_insert(f, k, p)) <= max_nat(fields_depth(f), pattern_depth(p)),
    decreases f,
{
    if let FieldList::Cons(_, _, rest) = f {
        lemma_insert_depth(*rest, k, p);
    }
}

proof fn lemma_extend_depth(base: FieldList, extra: FieldList)
    ensures
        fields_depth(fields_extend(base, extra)) <= max_nat(fields_depth(base), fields_depth(extra)),
    decreases extra,
{
    if let FieldList::Cons(k, p, rest) = extra {
        lemma_insert_depth(base, k, p);
        lemma_extend_depth(fields_insert(base, k, p), *rest);
    }
}

/// What applying a binding gives nests no deeper than the steps it was given.
pub proof fn lemma_apply_depth(b: BindingView, p: Pattern, fuel: nat)
    ensures
        apply_pattern(b, p, fuel) matches Ok(q) ==> pattern_depth(q) <= fuel,
    decreases fuel, 0nat,
{
    if fuel > 0 {
        let f = (fuel - 1) as nat;
        let age = match p.age {
            Some(a) => Some(a),
            None => Some(b.generation()),
        };
        match *p.kind {
            PatternKind::Variable(variable) => {
                let v = set_current(variable, age);
                match lookup(b.entries, v) {
                    None => {},
                    Some(q) => if *q.kind != PatternKind::Variable(v) {
                        lemma_apply_depth(b, with_default_age(q, age), f);
                    } else {
                        assert(kind_depth(*q.kind) == 1);
                    },
                }
            },
            PatternKind::List(items, rest) => {
                lemma_apply_list_depth(b, items, age, f);
                if let Ok(items2) = apply_list(b, items, age, f) {
                    assert(option_depth(None) == 0);
                    if let Some(r) = rest {
                        lemma_apply_depth(b, with_default_age(r, age), f);
                        if let Ok(r2) = apply_pattern(b, with_default_age(r, age), f) {
                            if let PatternKind::List(head, rest2) = *r2.kind {
                                lemma_append_depth(items2, head);
                                assert(kind_depth(*r2.kind) == 1 + max_nat(list_depth(head), option_depth(rest2)));
                                assert(kind_depth(PatternKind::List(list_append(items2, head), rest2))
                                    == 1 + max_nat(list_depth(list_append(items2, head)), option_depth(rest2)));
                            } else {
                                assert(option_depth(Some(r2)) == pattern_depth(r2));
                            }
                        }
                    }
                }
            },
            PatternKind::Record(fields, rest) => {
                lemma_apply_fields_depth(b, fields, age, f);
                lemma_apply_gives_applied(b, p, fuel);
                if let Ok(fields2) = apply_fields(b, fields, age, f) {
                    assert(option_depth(None) == 0);
                    assert(make_record(fields2, None) == PatternKind::Record(fields2, None));
                    if let Some(r) = rest {
                        lemma_apply_depth(b, with_default_age(r, age), f);
                        lemma_apply_gives_applied(b, with_default_age(r, age), f);
                        if let Ok(r2) = apply_pattern(b, with_default_age(r, age), f) {
                            assert(applied_kind(b, *r2.kind));
                            if let PatternKind::Record(head, rest2) = *r2.kind {
                                lemma_extend_depth(fields2, head);
                                assert(applied_tail(b, rest2));
                                if let Some(t) = rest2 {
                                    assert(*t.kind is Variable);
                                }
                                assert(make_record(fields_extend(fields2, head), rest2)
                                    == PatternKind::Record(fields_extend(fields2, head), rest2));
                                assert(kind_depth(*r2.kind) == 1 + max_nat(fields_depth(head), option_depth(rest2)));
                            } else {
                                assert(make_record(fields2, Some(r2)) == PatternKind::Record(fields2, Some(r2)));
                                assert(option_depth(Some(r2)) == pattern_depth(r2));
                            }
                        }
                    }
                }
            },
            PatternKind::Struct(_, contents) => {
                if let Some(c) = contents {
                    lemma_apply_depth(b, with_default_age(c, age), f);
                }
            },
            PatternKind::All(items) => {
                lemma_apply_list_depth(b, items, age, f);
            },
            _ => {},
        }
    }
}

/// [`lemma_apply_depth`] for the patterns of a list.
pub proof fn lemma_apply_list_depth(b: BindingView, l: PatternList, age: Option<usize>, fuel: nat)
    ensures
        apply_list(b, l, age, fuel) matches Ok(q) ==> list_depth(q) <= fuel,
    decreases fuel, list_len(l) + 1,
{
    if let PatternList::Cons(p, rest) = l {
        lemma_apply_depth(b, with_default_age(p, age), fuel);
        lemma_apply_list_depth(b, *rest, age, fuel);
    }
}

/// [`lemma_apply_depth`] for the fields of a record.
pub proof fn lemma_apply_fields_depth(b: BindingView, f: FieldList, age: Option<usize>, fuel: nat)
    ensures
        apply_fields(b, f, age, fuel) matches Ok(q) ==> fields_depth(q) <= fuel,
    decreases fuel, fields_len(f) + 1,
{
    if let FieldList::Cons(_, p, rest) = f {
        lemma_apply_depth(b, with_default_age(p, age), fuel);
        lemma_apply_fields_depth(b, *rest, age, fuel);
    }
}

/// Applying a binding twice gives the same term as applying it once: whatever
/// [`Binding::apply`] gives, applying the binding to it again gives back, up to ages.
pub proof fn lemma_apply_is_idempotent(b: BindingView, p: Pattern)
    ensures
        apply_pattern(b, p, APPLY_FUEL as nat) matches Ok(q) ==> (
            apply_pattern(b, q, APPLY_FUEL as nat) matches Ok(r) && same_term(r, q)
        ),
{
    if let Ok(q) = apply_pattern(b, p, APPLY_FUEL as nat) {
        lemma_apply_depth(b, p, APPLY_FUEL as nat);
        lemma_apply_twice(b, p, APPLY_FUEL as nat, APPLY_FUEL as nat);
    }
}

/// The age at which applying a binding places the parts of `p`: its own, or the current
/// generation when it has none.
pub open spec fn apply_age(b: BindingView, p: Pattern) -> Option<usize> {
    match p.age {
        Some(a) => Some(a),
        None => Some(b.generation()),
    }
}

/// Applying a binding to a literal or a host value gives it back; to `Bound` or `Unbound`,
/// the same check.
pub proof fn lemma_apply_leaf(b: BindingView, p: Pattern, fuel: nat)
    requires
        fuel > 0,
        *p.kind is Literal || *p.kind is Any || *p.kind is Bound || *p.kind is Unbound,
    ensures
        (*p.kind is Literal || *p.kind is Any) ==> apply_pattern(b, p, fuel) == Ok::<Pattern, BindingError>(p),
        (*p.kind is Bound || *p.kind is Unbound) ==> apply_pattern(b, p, fuel) == Ok::<Pattern, BindingError>(pattern_of(*p.kind)),
{
}

/// Applying a binding to a structure applies it to the structure's contents, with as many
/// steps: the same name, and the contents applied.
pub proof fn lemma_apply_struct(b: BindingView, p: Pattern, fuel: nat)
    requires
        *p.kind is Struct,
    ensures
        apply_pattern(b, p, fuel + 1) matches Ok(r) ==> match (*p.kind)->Struct_1 {
            None => *r.kind == PatternKind::Struct((*p.kind)->Struct_0, None),
            Some(c) => apply_pattern(b, with_default_age(c, apply_age(b, p)), fuel + 1) matches Ok(c2)
                && *r.kind == PatternKind::Struct((*p.kind)->Struct_0, Some(c2)),
        },
{
    if let Some(c) = (*p.kind)->Struct_1 {
        let sub = with_default_age(c, apply_age(b, p));
        if apply_pattern(b, sub, fuel) is Ok {
            lemma_apply_fuel(b, sub, fuel, fuel + 1);
        }
    }
}

/// Applying a binding to a list applies it to each item, with as many steps, keeping their
/// number and order; a rest that applies to a list is merged into the items, and one that
/// applies to a variable stays the rest.
pub proof fn lemma_apply_list(b: BindingView, p: Pattern, fuel: nat)
    requires
        *p.kind is List,
    ensures
        apply_pattern(b, p, fuel + 1) matches Ok(r) ==> {
            let items = (*p.kind)->List_0;
            let age = apply_age(b, p);
            &&& apply_list(b, items, age, fuel + 1) matches Ok(items2)
            &&& list_seq(items2).len() == list_seq(items).len()
            &&& match (*p.kind)->List_1 {
                None => *r.kind == PatternKind::List(items2, None),
                Some(t) => apply_pattern(b, with_default_age(t, age), fuel + 1) matches Ok(t2) && match *t2.kind {
                    PatternKind::List(h2, t3) => *r.kind == PatternKind::List(list_append(items2, h2), t3),
                    _ => *r.kind == PatternKind::List(items2, Some(t2)),
                },
            }
        },
{
    let items = (*p.kind)->List_0;
    let age = apply_age(b, p);
    if apply_list(b, items, age, fuel) is Ok {
        lemma_apply_list_fuel(b, items, age, fuel, fuel + 1);
        lemma_apply_list_item_by_item(b, items, age, fuel);
    }
    if let Some(t) = (*p.kind)->List_1 {
        let sub = with_default_age(t, age);
        if apply_pattern(b, sub, fuel) is Ok {
            lemma_apply_fuel(b, sub, fuel, fuel + 1);
        }
    }
}

/// Applying a binding to a record applies it to each field, with as many steps; a rest
/// that applies to a record has its fields merged in, and one that applies to a variable
/// stays the rest.
pub proof fn lemma_apply_record(b: BindingView, p: Pattern, fuel: nat)
    requires
        *p.kind is Record,
    ensures
        apply_pattern(b, p, fuel + 1) matches Ok(r) ==> {
            let fields = (*p.kind)->Record_0;
            let age = apply_age(b, p);
            &&& apply_fields(b, fields, age, fuel + 1) matches Ok(fields2)
            &&& match (*p.kind)->Record_1 {
                None => *r.kind == PatternKind::Record(fields2, None),
                Some(t) => apply_pattern(b, with_default_age(t, age), fuel + 1) matches Ok(t2) && match *t2.kind {
                    PatternKind::Record(h2, t3) => *r.kind == make_record(fields_extend(fields2, h2), t3),
                    _ => *r.kind == PatternKind::Record(fields2, Some(t2)),
                },
            }
        },
{
    let fields = (*p.kind)->Record_0;
    let age = apply_age(b, p);
    if apply_fields(b, fields, age, fuel) is Ok {
        lemma_apply_fields_fuel(b, fields, age, fuel, fuel + 1);
        assert(make_record(apply_fields(b, fields, age, fuel)->Ok_0, None)
            == PatternKind::Record(apply_fields(b, fields, age, fuel)->Ok_0, None));
    }
    if let Some(t) = (*p.kind)->Record_1 {
        let sub = with_default_age(t, age);
        if apply_pattern(b, sub, fuel) is Ok {
            lemma_apply_fuel(b, sub, fuel, fuel + 1);
            let t2 = apply_pattern(b, sub, fuel)->Ok_0;
            if *t2.kind is Variable {
                if apply_fields(b, fields, age, fuel) is Ok {
                    let fields2 = apply_fields(b, fields, age, fuel)->Ok_0;
                    assert(make_record(fields2, Some(t2)) == PatternKind::Record(fields2, Some(t2)));
                }
            }
        }
    }
}

/// Reading what unification wrote: once unification has given a variable with no value a
/// literal, applying the binding to the variable gives that literal (as placed in the
/// generation in which it was unified).
pub proof fn lemma_apply_reads_unified_literal(v: crate::variable::Variable, l: crate::literal::Literal, b: BindingView)
    requires
        b.wf(),
        crate::unify_laws::is_unbound_in(v, b),
    ensures
        crate::unify::unify_patterns_spec(
            crate::binding::self_pattern(v),
            pattern_of(PatternKind::Literal(l)),
            b,
            crate::unify_laws::full_fuel(),
        ) matches Some(b2)
            && apply_pattern(b2, crate::binding::self_pattern(v), APPLY_FUEL as nat)
                == Ok::<Pattern, BindingError>(with_default_age(pattern_of(PatternKind::Literal(l)), Some(b.generation()))),
{
    let p = pattern_of(PatternKind::Literal(l));
    assert(crate::pattern::kind_variables(*p.kind) =~= Seq::<crate::variable::Variable>::empty());
    crate::unify_laws::lemma_unbound_variable_takes_value(v, p, b);
    crate::unify_laws::lemma_unify_extends(
        with_default_age(crate::binding::self_pattern(v), Some(b.generation())),
        with_default_age(p, Some(b.generation())),
        b,
        crate::unify_laws::full_fuel(),
    );
    let b2 = crate::unify::unify_patterns_spec(crate::binding::self_pattern(v), p, b, crate::unify_laws::full_fuel()).unwrap();
    let q = with_default_age(p, Some(b.generation()));
    let f = (APPLY_FUEL - 1) as nat;
    assert(set_current(v, v.generation) == v);
    assert(with_default_age(q, v.generation) == q);
    assert(apply_pattern(b2, q, f) == Ok::<Pattern, BindingError>(q));
    assert(lookup(b2.entries, v) == Some(q));
}

} // verus!

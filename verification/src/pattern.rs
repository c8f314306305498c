//! Patterns, against which other patterns are unified.
use crate::atom::Atom;
use crate::literal::Literal;
use crate::variable::{Variable, set_current};
use vstd::prelude::*;

verus! {

/// A pattern: a shape of value, and the generation of evaluation in which the variables
/// inside it that have no generation yet live.
#[derive(Debug)]
pub struct Pattern {
    /// The shape of the pattern.
    pub kind: Box<PatternKind>,
    /// The generation in which the pattern's variables live, if known.
    pub age: Option<usize>,
}

/// A sequence of patterns.
#[derive(Debug)]
pub enum PatternList {
    Nil,
    Cons(Pattern, Box<PatternList>),
}

/// A sequence of named fields, kept in increasing order of their names' atoms with no
/// name twice (see [`fields_sorted`]).
#[derive(Debug)]
pub enum FieldList {
    Nil,
    Cons(Atom, Pattern, Box<FieldList>),
}

/// The shape of a pattern.
#[derive(Debug)]
pub enum PatternKind {
    /// A structured pattern: a name, and optional contents.
    Struct(Atom, Option<Pattern>),
    /// A single variable (unifies with anything but only once).
    Variable(Variable),
    /// A literal value (unifies only with itself).
    Literal(Literal),
    /// A list of patterns, and the pattern of the rest of the list when it is not complete.
    List(PatternList, Option<Pattern>),
    /// A record of named fields, and the pattern of the other fields when it is not
    /// complete.
    Record(FieldList, Option<Pattern>),
    /// An unknown host value, known only by its identity.
    Any(u64),
    /// A value that must already be bound at the time of checking (not a variable).
    Bound,
    /// A value that must not yet be bound at the time of checking (a variable only).
    Unbound,
    /// A value that must match every one of several patterns.
    All(PatternList),
}

// ------------------------------------------------------------------------------------
// Sequences of patterns
// ------------------------------------------------------------------------------------

/// The number of patterns in a list.
pub open spec fn list_len(l: PatternList) -> nat
    decreases l,
{
    match l {
        PatternList::Nil => 0,
        PatternList::Cons(_, rest) => 1 + list_len(*rest),
    }
}

/// The patterns of `a` followed by those of `b`.
pub open spec fn list_append(a: PatternList, b: PatternList) -> PatternList
    decreases a,
{
    match a {
        PatternList::Nil => b,
        PatternList::Cons(p, rest) => PatternList::Cons(p, Box::new(list_append(*rest, b))),
    }
}

/// The patterns of a list, as a sequence.
pub open spec fn list_seq(l: PatternList) -> Seq<Pattern>
    decreases l,
{
    match l {
        PatternList::Nil => Seq::empty(),
        PatternList::Cons(p, rest) => seq![p] + list_seq(*rest),
    }
}

/// Appending lists appends their sequences, and their lengths add up.
pub proof fn lemma_list_append(a: PatternList, b: PatternList)
    ensures
        list_seq(list_append(a, b)) == list_seq(a) + list_seq(b),
        list_len(list_append(a, b)) == list_len(a) + list_len(b),
    decreases a,
{
    match a {
        PatternList::Nil => {
            assert(list_seq(a) + list_seq(b) =~= list_seq(b));
        },
        PatternList::Cons(p, rest) => {
            lemma_list_append(*rest, b);
            assert(seq![p] + (list_seq(*rest) + list_seq(b)) =~= (seq![p] + list_seq(*rest)) + list_seq(b));
        },
    }
}

// ------------------------------------------------------------------------------------
// Sequences of fields
// ------------------------------------------------------------------------------------

/// Whether every field name in `f` comes after `key`.
pub open spec fn fields_above(f: FieldList, key: Atom) -> bool {
    match f {
        FieldList::Nil => true,
        FieldList::Cons(k, _, _) => key.spec_index() < k.spec_index(),
    }
}

/// Whether the fields are in strictly increasing order of their names' atoms.
pub open spec fn fields_sorted(f: FieldList) -> bool
    decreases f,
{
    match f {
        FieldList::Nil => true,
        FieldList::Cons(k, _, rest) => fields_above(*rest, k) && fields_sorted(*rest),
    }
}

/// The number of fields.
pub open spec fn fields_len(f: FieldList) -> nat
    decreases f,
{
    match f {
        FieldList::Nil => 0,
        FieldList::Cons(_, _, rest) => 1 + fields_len(*rest),
    }
}

/// The pattern of the field named `key`, if there is one.
pub open spec fn fields_get(f: FieldList, key: Atom) -> Option<Pattern>
    decreases f,
{
    match f {
        FieldList::Nil => None,
        FieldList::Cons(k, p, rest) => if k == key {
            Some(p)
        } else {
            fields_get(*rest, key)
        },
    }
}

/// The fields with the field named `key` set to `value`, replacing any field of that name,
/// keeping the order of names.
pub open spec fn fields_insert(f: FieldList, key: Atom, value: Pattern) -> FieldList
    decreases f,
{
    match f {
        FieldList::Nil => FieldList::Cons(key, value, Box::new(FieldList::Nil)),
        FieldList::Cons(k, p, rest) => if k == key {
            FieldList::Cons(key, value, rest)
        } else if key.spec_index() < k.spec_index() {
            FieldList::Cons(key, value, Box::new(FieldList::Cons(k, p, rest)))
        } else {
            FieldList::Cons(k, p, Box::new(fields_insert(*rest, key, value)))
        },
    }
}

/// The fields without the field named `key`.
pub open spec fn fields_remove(f: FieldList, key: Atom) -> FieldList
    decreases f,
{
    match f {
        FieldList::Nil => FieldList::Nil,
        FieldList::Cons(k, p, rest) => if k == key {
            *rest
        } else {
            FieldList::Cons(k, p, Box::new(fields_remove(*rest, key)))
        },
    }
}

/// The fields of `base` together with those of `extra`, a field of `extra` replacing a
/// field of `base` with the same name.
pub open spec fn fields_extend(base: FieldList, extra: FieldList) -> FieldList
    decreases extra,
{
    match extra {
        FieldList::Nil => base,
        FieldList::Cons(k, p, rest) => fields_extend(fields_insert(base, k, p), *rest),
    }
}

proof fn lemma_fields_insert_sorted(f: FieldList, key: Atom, value: Pattern)
    requires
        fields_sorted(f),
    ensures
        fields_sorted(fields_insert(f, key, value)),
        forall|lower: Atom| fields_above(f, lower) && lower.spec_index() < key.spec_index() ==> fields_above(fields_insert(f, key, value), lower),
    decreases f,
{
    match f {
        FieldList::Nil => {},
        FieldList::Cons(k, p, rest) => {
            Atom::lemma_index_injective(k, key);
            if k == key {
            } else if key.spec_index() < k.spec_index() {
            } else {
                lemma_fields_insert_sorted(*rest, key, value);
            }
        },
    }
}

/// Extending sorted fields gives sorted fields.
pub proof fn lemma_fields_extend_sorted(base: FieldList, extra: FieldList)
    requires
        fields_sorted(base),
    ensures
        fields_sorted(fields_extend(base, extra)),
    decreases extra,
{
    match extra {
        FieldList::Nil => {},
        FieldList::Cons(k, p, rest) => {
            lemma_fields_insert_sorted(base, k, p);
            lemma_fields_extend_sorted(fields_insert(base, k, p), *rest);
        },
    }
}

/// After `fields_insert`, looking up the inserted name gives the inserted value, and
/// looking up any other name gives what it gave before.
pub proof fn lemma_fields_insert_get(f: FieldList, key: Atom, value: Pattern, other: Atom)
    requires
        fields_sorted(f),
    ensures
        fields_get(fields_insert(f, key, value), key) == Some(value),
        other != key ==> fields_get(fields_insert(f, key, value), other) == fields_get(f, other),
    decreases f,
{
    match f {
        FieldList::Nil => {},
        FieldList::Cons(k, p, rest) => {
            if k == key {
            } else if key.spec_index() < k.spec_index() {
            } else {
                lemma_fields_insert_get(*rest, key, value, other);
            }
        },
    }
}

// ------------------------------------------------------------------------------------
// Well-formed constructions
// ------------------------------------------------------------------------------------

/// Whether `tail` may stand as the rest of a list: absent, a variable, or a list whose
/// own rest may stand there too.
pub open spec fn list_tail_ok(tail: Option<Pattern>) -> bool
    decreases tail,
{
    match tail {
        None => true,
        Some(p) => match *p.kind {
            PatternKind::Variable(..) => true,
            PatternKind::List(_, t) => list_tail_ok(t),
            _ => false,
        },
    }
}

/// Whether `tail` may stand as the other fields of a record: absent, a variable, or a
/// record whose own other fields may stand there too.
pub open spec fn record_tail_ok(tail: Option<Pattern>) -> bool
    decreases tail,
{
    match tail {
        None => true,
        Some(p) => match *p.kind {
            PatternKind::Variable(..) => true,
            PatternKind::Record(_, t) => record_tail_ok(t),
            _ => false,
        },
    }
}

/// The list pattern with items `items` and rest `tail`, a rest that is itself a list
/// being merged into the items.
pub open spec fn make_list(items: PatternList, tail: Option<Pattern>) -> PatternKind
    decreases tail,
{
    match tail {
        Some(p) => match *p.kind {
            PatternKind::List(cont, t) => make_list(list_append(items, cont), t),
            _ => PatternKind::List(items, tail),
        },
        None => PatternKind::List(items, tail),
    }
}

/// The record pattern with fields `fields` and other fields `tail`, a tail that is itself
/// a record being merged into the fields (its fields replacing those of the same name).
pub open spec fn make_record(fields: FieldList, tail: Option<Pattern>) -> PatternKind
    decreases tail,
{
    match tail {
        Some(p) => match *p.kind {
            PatternKind::Record(cont, t) => make_record(fields_extend(fields, cont), t),
            _ => PatternKind::Record(fields, tail),
        },
        None => PatternKind::Record(fields, tail),
    }
}

/// The pattern made from a shape on its own: a variable keeps its own generation as the
/// pattern's age; any other shape has no age.
pub open spec fn pattern_of(kind: PatternKind) -> Pattern {
    match kind {
        PatternKind::Variable(v) => Pattern { kind: Box::new(kind), age: v.generation },
        _ => Pattern { kind: Box::new(kind), age: None },
    }
}

/// The pattern made from a shape at age `age`: a variable is placed in that generation
/// when it has none.
pub open spec fn pattern_at(kind: PatternKind, age: usize) -> Pattern {
    match kind {
        PatternKind::Variable(v) => Pattern {
            kind: Box::new(PatternKind::Variable(set_current(v, Some(age)))),
            age: Some(age),
        },
        _ => Pattern { kind: Box::new(kind), age: Some(age) },
    }
}

/// The pattern with its age filled in with `age` when it has none; see
/// [`Pattern::default_age`].
pub open spec fn with_default_age(p: Pattern, age: Option<usize>) -> Pattern {
    if p.age is Some || age is None {
        p
    } else {
        match *p.kind {
            PatternKind::Variable(v) => if v.generation is None {
                pattern_at(*p.kind, age.unwrap())
            } else {
                Pattern { kind: p.kind, age: age }
            },
            _ => Pattern { kind: p.kind, age: age },
        }
    }
}

/// The list pattern of `items` and `tail`: when there are no items, the tail itself.
pub open spec fn list_pattern(items: PatternList, tail: Option<Pattern>) -> Pattern {
    if items is Nil && tail is Some {
        tail.unwrap()
    } else {
        pattern_of(make_list(items, tail))
    }
}

/// The record pattern of `fields` and `tail`: when there are no fields, the tail itself.
pub open spec fn record_pattern(fields: FieldList, tail: Option<Pattern>) -> Pattern {
    if fields is Nil && tail is Some {
        tail.unwrap()
    } else {
        pattern_of(make_record(fields, tail))
    }
}

// ------------------------------------------------------------------------------------
// Variables
// ------------------------------------------------------------------------------------

/// The variables of a pattern, in order, each placed in the pattern's age when it has no
/// generation of its own.
pub open spec fn pattern_variables(p: Pattern) -> Seq<Variable>
    decreases p,
{
    let inner = kind_variables(*p.kind);
    Seq::new(inner.len(), |i: int| set_current(inner[i], p.age))
}

/// The variables of a shape, in order.
pub open spec fn kind_variables(k: PatternKind) -> Seq<Variable>
    decreases k,
{
    match k {
        PatternKind::Variable(v) => seq![v],
        PatternKind::Struct(_, Some(contents)) => pattern_variables(contents),
        PatternKind::List(items, tail) => list_variables(items) + option_variables(tail),
        PatternKind::Record(fields, tail) => field_variables(fields) + option_variables(tail),
        PatternKind::All(items) => list_variables(items),
        _ => Seq::empty(),
    }
}

/// The variables of an optional pattern.
pub open spec fn option_variables(p: Option<Pattern>) -> Seq<Variable>
    decreases p,
{
    match p {
        Some(p) => pattern_variables(p),
        None => Seq::empty(),
    }
}

/// The variables of a list of patterns, in order.
pub open spec fn list_variables(l: PatternList) -> Seq<Variable>
    decreases l,
{
    match l {
        PatternList::Nil => Seq::empty(),
        PatternList::Cons(p, rest) => pattern_variables(p) + list_variables(*rest),
    }
}

/// The variables of a list of fields, in order.
pub open spec fn field_variables(f: FieldList) -> Seq<Variable>
    decreases f,
{
    match f {
        FieldList::Nil => Seq::empty(),
        FieldList::Cons(_, p, rest) => pattern_variables(p) + field_variables(*rest),
    }
}

// ------------------------------------------------------------------------------------
// Executable operations
// ------------------------------------------------------------------------------------

impl PatternList {
    /// A copy of this list.
    pub fn copy(&self) -> (r: PatternList)
        ensures
            r == *self,
        decreases self,
    {
        match self {
            PatternList::Nil => PatternList::Nil,
            PatternList::Cons(p, rest) => PatternList::Cons(p.copy(), Box::new((**rest).copy())),
        }
    }

    /// The number of patterns in this list.
    pub fn len(&self) -> (r: usize)
        requires
            list_len(*self) <= usize::MAX,
        ensures
            r == list_len(*self),
        decreases self,
    {
        match self {
            PatternList::Nil => 0,
            PatternList::Cons(_, rest) => 1 + (**rest).len(),
        }
    }

    /// Whether this list is empty.
    pub fn is_empty(&self) -> (r: bool)
        ensures
            r == (*self is Nil),
    {
        match self {
            PatternList::Nil => true,
            _ => false,
        }
    }

    /// The patterns of `self` followed by those of `other`.
    pub fn append(self, other: PatternList) -> (r: PatternList)
        ensures
            r == list_append(self, other),
        decreases self,
    {
        match self {
            PatternList::Nil => other,
            PatternList::Cons(p, rest) => PatternList::Cons(p, Box::new((*rest).append(other))),
        }
    }

    /// The list of the patterns of a vector, in order.
    pub fn from_vec(items: Vec<Pattern>) -> (r: PatternList)
        ensures
            list_seq(r) == items@,
    {
        let mut items = items;
        let mut r = PatternList::Nil;
        let ghost all = items@;
        while items.len() > 0
            invariant
                all == items@ + list_seq(r),
            decreases items@.len(),
        {
            let p = items.pop().unwrap();
            let ghost before = r;
            r = PatternList::Cons(p, Box::new(r));
            proof {
                assert(list_seq(r) == seq![p] + list_seq(before));
                assert(all =~= items@ + list_seq(r));
            }
        }
        assert(items@ + list_seq(r) =~= list_seq(r));
        r
    }
}

impl FieldList {
    /// A copy of these fields.
    pub fn copy(&self) -> (r: FieldList)
        ensures
            r == *self,
        decreases self,
    {
        match self {
            FieldList::Nil => FieldList::Nil,
            FieldList::Cons(k, p, rest) => FieldList::Cons(*k, p.copy(), Box::new((**rest).copy())),
        }
    }

    /// The number of fields.
    pub fn len(&self) -> (r: usize)
        requires
            fields_len(*self) <= usize::MAX,
        ensures
            r == fields_len(*self),
        decreases self,
    {
        match self {
            FieldList::Nil => 0,
            FieldList::Cons(_, _, rest) => 1 + (**rest).len(),
        }
    }

    /// Whether there are no fields.
    pub fn is_empty(&self) -> (r: bool)
        ensures
            r == (*self is Nil),
    {
        match self {
            FieldList::Nil => true,
            _ => false,
        }
    }

    /// The pattern of the field named `key`, if there is one.
    pub fn get(&self, key: Atom) -> (r: Option<&Pattern>)
        ensures
            match r {
                Some(p) => fields_get(*self, key) == Some(*p),
                None => fields_get(*self, key) is None,
            },
        decreases self,
    {
        match self {
            FieldList::Nil => None,
            FieldList::Cons(k, p, rest) => if *k == key {
                Some(p)
            } else {
                (**rest).get(key)
            },
        }
    }

    /// Sets the field named `key` to `value`, replacing any field of that name.
    pub fn insert(self, key: Atom, value: Pattern) -> (r: FieldList)
        ensures
            r == fields_insert(self, key, value),
        decreases self,
    {
        match self {
            FieldList::Nil => FieldList::Cons(key, value, Box::new(FieldList::Nil)),
            FieldList::Cons(k, p, rest) => if k == key {
                FieldList::Cons(key, value, rest)
            } else if key.index() < k.index() {
                FieldList::Cons(key, value, Box::new(FieldList::Cons(k, p, rest)))
            } else {
                FieldList::Cons(k, p, Box::new((*rest).insert(key, value)))
            },
        }
    }

    /// Removes the field named `key`, returning the remaining fields and the removed
    /// field's pattern.
    pub fn remove(self, key: Atom) -> (r: (FieldList, Option<Pattern>))
        ensures
            r.0 == fields_remove(self, key),
            r.1 == fields_get(self, key),
        decreases self,
    {
        match self {
            FieldList::Nil => (FieldList::Nil, None),
            FieldList::Cons(k, p, rest) => if k == key {
                (*rest, Some(p))
            } else {
                let (remaining, removed) = (*rest).remove(key);
                (FieldList::Cons(k, p, Box::new(remaining)), removed)
            },
        }
    }

    /// The fields of `self` together with those of `extra`, which replace fields of the
    /// same name.
    pub fn extend(self, extra: FieldList) -> (r: FieldList)
        ensures
            r == fields_extend(self, extra),
        decreases extra,
    {
        match extra {
            FieldList::Nil => self,
            FieldList::Cons(k, p, rest) => self.insert(k, p).extend(*rest),
        }
    }
}

impl Pattern {
    /// A copy of this pattern.
    pub fn copy(&self) -> (r: Pattern)
        ensures
            r == *self,
        decreases self,
    {
        Pattern { kind: Box::new(self.kind.copy()), age: self.age }
    }

    /// The pattern of shape `kind` at age `age`; see [`pattern_at`].
    pub fn new(kind: PatternKind, age: usize) -> (r: Pattern)
        ensures
            r == pattern_at(kind, age),
    {
        match kind {
            PatternKind::Variable(var) => Pattern {
                kind: Box::new(PatternKind::Variable(var.set_current(Some(age)))),
                age: Some(age),
            },
            _ => Pattern { kind: Box::new(kind), age: Some(age) },
        }
    }

    /// The pattern of shape `kind`; see [`pattern_of`].
    pub fn from_kind(kind: PatternKind) -> (r: Pattern)
        ensures
            r == pattern_of(kind),
    {
        match kind {
            PatternKind::Variable(var) => {
                let age = var.generation();
                Pattern { kind: Box::new(PatternKind::Variable(var)), age }
            },
            _ => Pattern { kind: Box::new(kind), age: None },
        }
    }

    /// The shape of this pattern.
    pub fn kind(&self) -> (r: &PatternKind)
        ensures
            *r == *self.kind,
    {
        &self.kind
    }

    /// The age of this pattern.
    pub fn age(&self) -> (r: Option<usize>)
        ensures
            r == self.age,
    {
        self.age
    }

    /// This pattern with its age filled in with `age` when it has none; a variable with no
    /// generation is also placed in that generation.
    pub fn default_age(&self, age: Option<usize>) -> (r: Pattern)
        ensures
            r == with_default_age(*self, age),
    {
        if self.age.is_some() || age.is_none() {
            return self.copy();
        }
        match &*self.kind {
            PatternKind::Variable(var) => {
                if var.generation().is_none() {
                    Pattern::new(PatternKind::Variable(*var), age.unwrap())
                } else {
                    Pattern { kind: Box::new(self.kind.copy()), age }
                }
            },
            _ => Pattern { kind: Box::new(self.kind.copy()), age },
        }
    }

    /// The list pattern of `items` and `tail`; see [`list_pattern`].
    pub fn list(items: PatternList, tail: Option<Pattern>) -> (r: Pattern)
        requires
            list_tail_ok(tail),
        ensures
            r == list_pattern(items, tail),
    {
        if items.is_empty() && tail.is_some() {
            return tail.unwrap();
        }
        Pattern::from_kind(PatternKind::list(items, tail))
    }

    /// The record pattern of `fields` and `tail`; see [`record_pattern`].
    pub fn record(fields: FieldList, tail: Option<Pattern>) -> (r: Pattern)
        requires
            record_tail_ok(tail),
        ensures
            r == record_pattern(fields, tail),
    {
        if fields.is_empty() && tail.is_some() {
            return tail.unwrap();
        }
        Pattern::from_kind(PatternKind::record(fields, tail))
    }

    /// Appends the variables of this pattern to `out`; see [`pattern_variables`].
    pub fn collect_variables(&self, out: &mut Vec<Variable>)
        ensures
            final(out)@ == old(out)@ + pattern_variables(*self),
        decreases self,
    {
        let mut inner: Vec<Variable> = Vec::new();
        self.kind.collect_variables(&mut inner);
        let mut i: usize = 0;
        let ghost start = out@;
        while i < inner.len()
            invariant
                0 <= i <= inner@.len(),
                inner@ == kind_variables(*self.kind),
                out@ == start + pattern_variables(*self).subrange(0, i as int),
            decreases inner@.len() - i,
        {
            out.push(inner[i].set_current(self.age));
            i = i + 1;
            proof {
                assert(out@ =~= start + pattern_variables(*self).subrange(0, i as int));
            }
        }
        proof {
            assert(pattern_variables(*self).subrange(0, i as int) =~= pattern_variables(*self));
        }
    }

    /// The variables of this pattern, in order; see [`pattern_variables`].
    pub fn variables(&self) -> (r: Vec<Variable>)
        ensures
            r@ == pattern_variables(*self),
    {
        let mut out: Vec<Variable> = Vec::new();
        self.collect_variables(&mut out);
        assert(out@ =~= pattern_variables(*self));
        out
    }
}

impl PatternList {
    /// Appends the variables of these patterns to `out`.
    pub fn collect_variables(&self, out: &mut Vec<Variable>)
        ensures
            final(out)@ == old(out)@ + list_variables(*self),
        decreases self,
    {
        match self {
            PatternList::Nil => {
                assert(out@ =~= out@ + Seq::<Variable>::empty());
            },
            PatternList::Cons(p, rest) => {
                let ghost start = out@;
                p.collect_variables(out);
                (**rest).collect_variables(out);
                assert(out@ =~= start + (pattern_variables(*p) + list_variables(**rest)));
            },
        }
    }
}

impl FieldList {
    /// Appends the variables of these fields to `out`.
    pub fn collect_variables(&self, out: &mut Vec<Variable>)
        ensures
            final(out)@ == old(out)@ + field_variables(*self),
        decreases self,
    {
        match self {
            FieldList::Nil => {
                assert(out@ =~= out@ + Seq::<Variable>::empty());
            },
            FieldList::Cons(_, p, rest) => {
                let ghost start = out@;
                p.collect_variables(out);
                (**rest).collect_variables(out);
                assert(out@ =~= start + (pattern_variables(*p) + field_variables(**rest)));
            },
        }
    }
}

impl PatternKind {
    /// A copy of this shape.
    pub fn copy(&self) -> (r: PatternKind)
        ensures
            r == *self,
        decreases self,
    {
        match self {
            PatternKind::Struct(name, contents) => PatternKind::Struct(*name, match contents {
                Some(p) => Some(p.copy()),
                None => None,
            }),
            PatternKind::Variable(v) => PatternKind::Variable(*v),
            PatternKind::Literal(l) => PatternKind::Literal(l.copy()),
            PatternKind::List(items, tail) => PatternKind::List(items.copy(), match tail {
                Some(p) => Some(p.copy()),
                None => None,
            }),
            PatternKind::Record(fields, tail) => PatternKind::Record(fields.copy(), match tail {
                Some(p) => Some(p.copy()),
                None => None,
            }),
            PatternKind::Any(id) => PatternKind::Any(*id),
            PatternKind::Bound => PatternKind::Bound,
            PatternKind::Unbound => PatternKind::Unbound,
            PatternKind::All(items) => PatternKind::All(items.copy()),
        }
    }

    /// Whether this shape is `All`.
    pub fn is_all(&self) -> (r: bool)
        ensures
            r == (*self is All),
    {
        match self {
            PatternKind::All(..) => true,
            _ => false,
        }
    }

    /// Whether this shape is a variable.
    pub fn is_variable(&self) -> (r: bool)
        ensures
            r == (*self is Variable),
    {
        match self {
            PatternKind::Variable(..) => true,
            _ => false,
        }
    }

    /// Whether this shape is `Bound`.
    pub fn is_bound(&self) -> (r: bool)
        ensures
            r == (*self is Bound),
    {
        match self {
            PatternKind::Bound => true,
            _ => false,
        }
    }

    /// Whether this shape is `Unbound`.
    pub fn is_unbound(&self) -> (r: bool)
        ensures
            r == (*self is Unbound),
    {
        match self {
            PatternKind::Unbound => true,
            _ => false,
        }
    }

    /// Whether this shape is a list or a record.
    pub fn is_container(&self) -> (r: bool)
        ensures
            r == (*self is List || *self is Record),
    {
        match self {
            PatternKind::List(..) | PatternKind::Record(..) => true,
            _ => false,
        }
    }

    /// The list shape of `items` and `tail`; see [`make_list`].
    pub fn list(items: PatternList, tail: Option<Pattern>) -> (r: PatternKind)
        requires
            list_tail_ok(tail),
        ensures
            r == make_list(items, tail),
        decreases tail,
    {
        match tail {
            Some(p) => {
                let Pattern { kind, age } = p;
                match *kind {
                    PatternKind::List(cont, t) => PatternKind::list(items.append(cont), t),
                    other => PatternKind::List(items, Some(Pattern { kind: Box::new(other), age })),
                }
            },
            None => PatternKind::List(items, None),
        }
    }

    /// The record shape of `fields` and `tail`; see [`make_record`].
    pub fn record(fields: FieldList, tail: Option<Pattern>) -> (r: PatternKind)
        requires
            record_tail_ok(tail),
        ensures
            r == make_record(fields, tail),
        decreases tail,
    {
        match tail {
            Some(p) => {
                let Pattern { kind, age } = p;
                match *kind {
                    PatternKind::Record(cont, t) => PatternKind::record(fields.extend(cont), t),
                    other => PatternKind::Record(fields, Some(Pattern { kind: Box::new(other), age })),
                }
            },
            None => PatternKind::Record(fields, None),
        }
    }

    /// Appends the variables of this shape to `out`; see [`kind_variables`].
    pub fn collect_variables(&self, out: &mut Vec<Variable>)
        ensures
            final(out)@ == old(out)@ + kind_variables(*self),
        decreases self,
    {
        let ghost start = out@;
        match self {
            PatternKind::Variable(v) => {
                out.push(*v);
                assert(out@ =~= start + seq![*v]);
            },
            PatternKind::Struct(_, Some(contents)) => contents.collect_variables(out),
            PatternKind::List(items, tail) => {
                items.collect_variables(out);
                let ghost mid = out@;
                match tail {
                    Some(p) => p.collect_variables(out),
                    None => {},
                }
                assert(out@ =~= start + (list_variables(*items) + option_variables(*tail)));
            },
            PatternKind::Record(fields, tail) => {
                fields.collect_variables(out);
                match tail {
                    Some(p) => p.collect_variables(out),
                    None => {},
                }
                assert(out@ =~= start + (field_variables(*fields) + option_variables(*tail)));
            },
            PatternKind::All(items) => items.collect_variables(out),
            _ => {
                assert(out@ =~= start + Seq::<Variable>::empty());
            },
        }
    }
}


// ------------------------------------------------------------------------------------
// Equality
// ------------------------------------------------------------------------------------

/// Whether two patterns are the same: the same shape, with equal parts and literals of the
/// same value, at the same age.
pub open spec fn pattern_eq(a: Pattern, b: Pattern) -> bool
    decreases a,
{
    kind_eq(*a.kind, *b.kind) && a.age == b.age
}

/// Whether two shapes are the same; see [`pattern_eq`].
pub open spec fn kind_eq(a: PatternKind, b: PatternKind) -> bool
    decreases a,
{
    match (a, b) {
        (PatternKind::Struct(n1, c1), PatternKind::Struct(n2, c2)) => n1 == n2 && option_eq(c1, c2),
        (PatternKind::Variable(v1), PatternKind::Variable(v2)) => v1 == v2,
        (PatternKind::Literal(l1), PatternKind::Literal(l2)) => crate::literal::literal_eq(l1, l2),
        (PatternKind::List(i1, t1), PatternKind::List(i2, t2)) => list_eq(i1, i2) && option_eq(t1, t2),
        (PatternKind::Record(f1, t1), PatternKind::Record(f2, t2)) => field_list_eq(f1, f2) && option_eq(t1, t2),
        (PatternKind::Any(x), PatternKind::Any(y)) => x == y,
        (PatternKind::Bound, PatternKind::Bound) => true,
        (PatternKind::Unbound, PatternKind::Unbound) => true,
        (PatternKind::All(i1), PatternKind::All(i2)) => list_eq(i1, i2),
        _ => false,
    }
}

/// Whether two optional patterns are the same; see [`pattern_eq`].
pub open spec fn option_eq(a: Option<Pattern>, b: Option<Pattern>) -> bool
    decreases a,
{
    match (a, b) {
        (None, None) => true,
        (Some(p), Some(q)) => pattern_eq(p, q),
        _ => false,
    }
}

/// Whether two lists of patterns are the same, item by item; see [`pattern_eq`].
pub open spec fn list_eq(a: PatternList, b: PatternList) -> bool
    decreases a,
{
    match (a, b) {
        (PatternList::Nil, PatternList::Nil) => true,
        (PatternList::Cons(p, r1), PatternList::Cons(q, r2)) => pattern_eq(p, q) && list_eq(*r1, *r2),
        _ => false,
    }
}

/// Whether two lists of fields are the same, field by field; see [`pattern_eq`].
pub open spec fn field_list_eq(a: FieldList, b: FieldList) -> bool
    decreases a,
{
    match (a, b) {
        (FieldList::Nil, FieldList::Nil) => true,
        (FieldList::Cons(k1, p, r1), FieldList::Cons(k2, q, r2)) => k1 == k2 && pattern_eq(p, q) && field_list_eq(*r1, *r2),
        _ => false,
    }
}

impl Pattern {
    /// Whether this pattern is the same as `other`; see [`pattern_eq`].
    pub fn same(&self, other: &Pattern) -> (r: bool)
        ensures
            r == pattern_eq(*self, *other),
        decreases self,
    {
        self.age == other.age && self.kind.same(&other.kind)
    }
}

/// Whether two optional patterns are the same; see [`option_eq`].
fn option_same(a: &Option<Pattern>, b: &Option<Pattern>) -> (r: bool)
    ensures
        r == option_eq(*a, *b),
    decreases a,
{
    match (a, b) {
        (None, None) => true,
        (Some(p), Some(q)) => p.same(q),
        _ => false,
    }
}

impl PatternList {
    /// Whether this list is the same as `other`, item by item; see [`list_eq`].
    pub fn same(&self, other: &PatternList) -> (r: bool)
        ensures
            r == list_eq(*self, *other),
        decreases self,
    {
        match (self, other) {
            (PatternList::Nil, PatternList::Nil) => true,
            (PatternList::Cons(p, r1), PatternList::Cons(q, r2)) => p.same(q) && (**r1).same(&**r2),
            _ => false,
        }
    }
}

impl FieldList {
    /// Whether these fields are the same as `other`, field by field; see
    /// [`field_list_eq`].
    pub fn same(&self, other: &FieldList) -> (r: bool)
        ensures
            r == field_list_eq(*self, *other),
        decreases self,
    {
        match (self, other) {
            (FieldList::Nil, FieldList::Nil) => true,
            (FieldList::Cons(k1, p, r1), FieldList::Cons(k2, q, r2)) => *k1 == *k2 && p.same(q) && (**r1).same(&**r2),
            _ => false,
        }
    }
}

impl PatternKind {
    /// Whether this shape is the same as `other`; see [`kind_eq`].
    pub fn same(&self, other: &PatternKind) -> (r: bool)
        ensures
            r == kind_eq(*self, *other),
        decreases self,
    {
        match (self, other) {
            (PatternKind::Struct(n1, c1), PatternKind::Struct(n2, c2)) => *n1 == *n2 && option_same(c1, c2),
            (PatternKind::Variable(v1), PatternKind::Variable(v2)) => *v1 == *v2,
            (PatternKind::Literal(l1), PatternKind::Literal(l2)) => l1.same_value(l2),
            (PatternKind::List(i1, t1), PatternKind::List(i2, t2)) => i1.same(i2) && option_same(t1, t2),
            (PatternKind::Record(f1, t1), PatternKind::Record(f2, t2)) => f1.same(f2) && option_same(t1, t2),
            (PatternKind::Any(x), PatternKind::Any(y)) => *x == *y,
            (PatternKind::Bound, PatternKind::Bound) => true,
            (PatternKind::Unbound, PatternKind::Unbound) => true,
            (PatternKind::All(i1), PatternKind::All(i2)) => i1.same(i2),
            _ => false,
        }
    }
}


/// Every pattern is the same as itself.
pub proof fn lemma_pattern_eq_reflexive(p: Pattern)
    ensures
        pattern_eq(p, p),
    decreases p,
{
    lemma_kind_eq_reflexive(*p.kind);
}

/// Every shape is the same as itself.
pub proof fn lemma_kind_eq_reflexive(k: PatternKind)
    ensures
        kind_eq(k, k),
    decreases k,
{
    match k {
        PatternKind::Struct(_, c) => lemma_option_eq_reflexive(c),
        PatternKind::Literal(l) => crate::literal::lemma_literal_eq_reflexive_symmetric(l, l),
        PatternKind::List(items, tail) => {
            lemma_list_eq_reflexive(items);
            lemma_option_eq_reflexive(tail);
        },
        PatternKind::Record(fields, tail) => {
            lemma_field_list_eq_reflexive(fields);
            lemma_option_eq_reflexive(tail);
        },
        PatternKind::All(items) => lemma_list_eq_reflexive(items),
        _ => {},
    }
}

proof fn lemma_option_eq_reflexive(p: Option<Pattern>)
    ensures
        option_eq(p, p),
    decreases p,
{
    if let Some(q) = p {
        lemma_pattern_eq_reflexive(q);
    }
}

proof fn lemma_list_eq_reflexive(l: PatternList)
    ensures
        list_eq(l, l),
    decreases l,
{
    if let PatternList::Cons(p, rest) = l {
        lemma_pattern_eq_reflexive(p);
        lemma_list_eq_reflexive(*rest);
    }
}

proof fn lemma_field_list_eq_reflexive(f: FieldList)
    ensures
        field_list_eq(f, f),
    decreases f,
{
    if let FieldList::Cons(_, p, rest) = f {
        lemma_pattern_eq_reflexive(p);
        lemma_field_list_eq_reflexive(*rest);
    }
}

} // verus!

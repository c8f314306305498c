//! Values handed between Lumber and its host, and the patterns they stand for.
use crate::atom::Atom;
use crate::identifier::{Identifier, IdentifierKind};
use crate::literal::Literal;
use crate::pattern::{FieldList, Pattern, PatternKind, PatternList, fields_insert, make_list, make_record, pattern_at};
use crate::unify::{list_of_seq, lemma_list_roundtrip};
use crate::variable::Variable;
use vstd::prelude::*;

verus! {

/// A value of the host. In a list or a record, a missing value (`None`) stands for any
/// value; a list or record that is not complete may have more items or fields.
#[derive(Debug)]
pub enum Value {
    /// An integer.
    Integer(i64),
    /// A fraction: a numerator over a positive denominator.
    Rational(i64, u64),
    /// A string.
    String(String),
    /// Items, and whether there are no more.
    List(Vec<Option<Value>>, bool),
    /// Named fields, and whether there are no more.
    Record(Vec<(Atom, Option<Value>)>, bool),
    /// A structure: a name and optional contents.
    Struct(Atom, Option<Box<Value>>),
    /// A value known only by its identity.
    Any(u64),
}

/// The identifier of the `k`-th wildcard standing for a value not given.
pub open spec fn hole_identifier(k: nat) -> Identifier {
    choose|i: Identifier| i.spec_index() == k && i.spec_kind() == IdentifierKind::Wildcard
}

/// The pattern of a value not given, at age `age`: the `k`-th wildcard, in that generation.
pub open spec fn hole(age: usize, k: nat) -> Pattern {
    pattern_at(PatternKind::Variable(Variable { identifier: hole_identifier(k), generation: Some(age) }), age)
}

/// The pattern that a value, or a value not given, stands for at age `age`, each value not
/// given a wildcard of its own, numbered from `k` on in order; with the number of the next
/// wildcard.
pub open spec fn pattern_of_value(v: Option<Value>, age: usize, k: nat) -> (Pattern, nat)
    decreases v,
{
    match v {
        None => (hole(age, k), k + 1),
        Some(value) => match value {
            Value::Integer(i) => (pattern_at(PatternKind::Literal(Literal::Integer(i)), age), k),
            Value::Rational(n, d) => (pattern_at(PatternKind::Literal(Literal::Rational(n, d)), age), k),
            Value::String(s) => (pattern_at(PatternKind::Literal(Literal::String(s)), age), k),
            Value::List(values, complete) => {
                let (items, k1) = patterns_of_values(values@, age, k);
                if complete {
                    (pattern_at(make_list(list_of_seq(items), None), age), k1)
                } else {
                    (pattern_at(make_list(list_of_seq(items), Some(hole(age, k1))), age), k1 + 1)
                }
            },
            Value::Record(fields, complete) => {
                let (fs, k1) = fields_of_values(fields@, age, k);
                if complete {
                    (pattern_at(make_record(fs, None), age), k1)
                } else {
                    (pattern_at(make_record(fs, Some(hole(age, k1))), age), k1 + 1)
                }
            },
            Value::Struct(name, contents) => match contents {
                Some(c) => {
                    let (p, k1) = pattern_of_value(Some(*c), age, k);
                    (pattern_at(PatternKind::Struct(name, Some(p)), age), k1)
                },
                None => (pattern_at(PatternKind::Struct(name, None), age), k),
            },
            Value::Any(a) => (pattern_at(PatternKind::Any(a), age), k),
        },
    }
}

/// The patterns of a sequence of values, in order, with wildcards numbered from `k` on.
pub open spec fn patterns_of_values(vs: Seq<Option<Value>>, age: usize, k: nat) -> (Seq<Pattern>, nat)
    decreases vs,
{
    if vs.len() == 0 {
        (Seq::empty(), k)
    } else {
        let (ps, k1) = patterns_of_values(vs.subrange(0, vs.len() - 1), age, k);
        let (p, k2) = pattern_of_value(vs[vs.len() - 1], age, k1);
        (ps.push(p), k2)
    }
}

/// The fields of a sequence of named values, each added in turn, with wildcards numbered
/// from `k` on; a name given twice keeps its last value.
pub open spec fn fields_of_values(fs: Seq<(Atom, Option<Value>)>, age: usize, k: nat) -> (FieldList, nat)
    decreases fs,
{
    if fs.len() == 0 {
        (FieldList::Nil, k)
    } else {
        let (f, k1) = fields_of_values(fs.subrange(0, fs.len() - 1), age, k);
        let (p, k2) = pattern_of_value(fs[fs.len() - 1].1, age, k1);
        (fields_insert(f, fs[fs.len() - 1].0, p), k2)
    }
}

/// The wildcards of a value are numbered upwards: the next number is at least the first.
pub proof fn lemma_holes_grow(v: Option<Value>, age: usize, k: nat)
    ensures
        pattern_of_value(v, age, k).1 >= k,
    decreases v,
{
    match v {
        None => {},
        Some(value) => match value {
            Value::List(values, _) => lemma_holes_grow_values(values@, age, k),
            Value::Record(fields, _) => lemma_holes_grow_fields(fields@, age, k),
            Value::Struct(_, Some(c)) => lemma_holes_grow(Some(*c), age, k),
            _ => {},
        },
    }
}

/// [`lemma_holes_grow`] for a sequence of values.
pub proof fn lemma_holes_grow_values(vs: Seq<Option<Value>>, age: usize, k: nat)
    ensures
        patterns_of_values(vs, age, k).1 >= k,
    decreases vs,
{
    if vs.len() > 0 {
        let prefix = vs.subrange(0, vs.len() - 1);
        lemma_holes_grow_values(prefix, age, k);
        lemma_holes_grow(vs[vs.len() - 1], age, patterns_of_values(prefix, age, k).1);
    }
}

/// [`lemma_holes_grow`] for a sequence of named values.
pub proof fn lemma_holes_grow_fields(fs: Seq<(Atom, Option<Value>)>, age: usize, k: nat)
    ensures
        fields_of_values(fs, age, k).1 >= k,
    decreases fs,
{
    if fs.len() > 0 {
        let prefix = fs.subrange(0, fs.len() - 1);
        lemma_holes_grow_fields(prefix, age, k);
        lemma_holes_grow(fs[fs.len() - 1].1, age, fields_of_values(prefix, age, k).1);
    }
}

/// The pattern of the `k`-th value not given, at age `age`.
fn hole_exec(age: usize, k: usize) -> (r: Pattern)
    ensures
        r == hole(age, k as nat),
{
    let w = Identifier::wildcard(k);
    proof {
        Identifier::lemma_identifier_parts(w, hole_identifier(k as nat));
    }
    Pattern::new(PatternKind::Variable(Variable::new(w, age)), age)
}

/// The pattern that a value, or a value not given, stands for at age `age`, with the
/// values not given numbered from `hole` on; also gives the next number. See
/// [`pattern_of_value`].
///
/// The numbering is the caller's: the wildcards of two calls are the same variables when
/// their numbers meet at one age. To keep the values not given of several values apart,
/// start each call from the number the one before it gave back, and keep the numbers of
/// the wildcards that a compiled program uses in that generation out of the way.
pub fn from_value(value: Option<Value>, age: usize, hole: usize) -> (r: (Pattern, usize))
    requires
        pattern_of_value(value, age, hole as nat).1 <= usize::MAX,
    ensures
        r.0 == pattern_of_value(value, age, hole as nat).0,
        r.1 as nat == pattern_of_value(value, age, hole as nat).1,
    decreases value,
{
    match value {
        None => (hole_exec(age, hole), hole + 1),
        Some(v) => match v {
            Value::Integer(i) => (Pattern::new(PatternKind::Literal(Literal::Integer(i)), age), hole),
            Value::Rational(n, d) => (Pattern::new(PatternKind::Literal(Literal::Rational(n, d)), age), hole),
            Value::String(s) => (Pattern::new(PatternKind::Literal(Literal::String(s)), age), hole),
            Value::List(values, complete) => {
                let (items, k1) = patterns_from_values(values, age, hole);
                let list = PatternList::from_vec(items);
                proof {
                    lemma_list_roundtrip(list);
                }
                if complete {
                    (Pattern::new(PatternKind::list(list, None), age), k1)
                } else {
                    (Pattern::new(PatternKind::list(list, Some(hole_exec(age, k1))), age), k1 + 1)
                }
            },
            Value::Record(fields, complete) => {
                let (f, k1) = fields_from_values(fields, age, hole);
                if complete {
                    (Pattern::new(PatternKind::record(f, None), age), k1)
                } else {
                    (Pattern::new(PatternKind::record(f, Some(hole_exec(age, k1))), age), k1 + 1)
                }
            },
            Value::Struct(name, contents) => match contents {
                Some(c) => {
                    let (p, k1) = from_value(Some(*c), age, hole);
                    (Pattern::new(PatternKind::Struct(name, Some(p)), age), k1)
                },
                None => (Pattern::new(PatternKind::Struct(name, None), age), hole),
            },
            Value::Any(a) => (Pattern::new(PatternKind::Any(a), age), hole),
        },
    }
}

/// The patterns of a vector of values, in order; see [`patterns_of_values`].
fn patterns_from_values(values: Vec<Option<Value>>, age: usize, hole: usize) -> (r: (Vec<Pattern>, usize))
    requires
        patterns_of_values(values@, age, hole as nat).1 <= usize::MAX,
    ensures
        r.0@ == patterns_of_values(values@, age, hole as nat).0,
        r.1 as nat == patterns_of_values(values@, age, hole as nat).1,
    decreases values@,
{
    let mut values = values;
    let ghost all = values@;
    match values.pop() {
        None => {
            let r: Vec<Pattern> = Vec::new();
            proof {
                assert(r@ =~= patterns_of_values(all, age, hole as nat).0);
            }
            (r, hole)
        },
        Some(last) => {
            proof {
                assert(values@ =~= all.subrange(0, all.len() - 1));
                lemma_holes_grow(last, age, patterns_of_values(values@, age, hole as nat).1);
            }
            let (mut r, k1) = patterns_from_values(values, age, hole);
            let (p, k2) = from_value(last, age, k1);
            r.push(p);
            (r, k2)
        },
    }
}

/// The fields of a vector of named values; see [`fields_of_values`].
fn fields_from_values(fields: Vec<(Atom, Option<Value>)>, age: usize, hole: usize) -> (r: (FieldList, usize))
    requires
        fields_of_values(fields@, age, hole as nat).1 <= usize::MAX,
    ensures
        r.0 == fields_of_values(fields@, age, hole as nat).0,
        r.1 as nat == fields_of_values(fields@, age, hole as nat).1,
    decreases fields@,
{
    let mut fields = fields;
    let ghost all = fields@;
    match fields.pop() {
        None => (FieldList::Nil, hole),
        Some((key, last)) => {
            proof {
                assert(fields@ =~= all.subrange(0, all.len() - 1));
                lemma_holes_grow(last, age, fields_of_values(fields@, age, hole as nat).1);
            }
            let (rest, k1) = fields_from_values(fields, age, hole);
            let (p, k2) = from_value(last, age, k1);
            (rest.insert(key, p), k2)
        },
    }
}

} // verus!

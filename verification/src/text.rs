//! The textual form of patterns, as Lumber writes them.
//!
//! Atoms are written by their text in an atomizer (`#` and their number when it has none),
//! variables by their name in the compiling context (`$` and their number when it has
//! none) followed by `@` and their generation (`@_` when it is not known yet).
use crate::atom::{Atom, Atomizer};
use crate::context::{Context, decimal_digits};
use crate::identifier::IdentifierKind;
use crate::literal::Literal;
use crate::pattern::{FieldList, Pattern, PatternKind, PatternList};
use crate::variable::Variable;
use crate::scope::{Scope, ScopeView};
use crate::arity::Arity;
use crate::handle::{Handle, HandleView};
use crate::binding::{Binding, BindingView};
use vstd::prelude::*;

verus! {

/// An integer in decimal, with a `-` before it when it is negative.
pub open spec fn int_text(n: int) -> Seq<char> {
    if n < 0 {
        seq!['-'] + decimal_digits((-n) as nat)
    } else {
        decimal_digits(n as nat)
    }
}

/// A hexadecimal digit, in lower case.
pub open spec fn hex_digit(d: nat) -> char {
    if d < 10 {
        (48 + d) as char
    } else {
        (87 + d) as char
    }
}

/// The digits of `n` in hexadecimal, most significant first.
pub open spec fn hex_digits(n: nat) -> Seq<char>
    decreases n,
{
    if n < 16 {
        seq![hex_digit(n)]
    } else {
        hex_digits(n / 16).push(hex_digit(n % 16))
    }
}

/// The text of `s` as std's `Debug` writes a string: in double quotes, with quotes,
/// backslashes and characters that are not printable escaped.
pub uninterp spec fn quoted_text(s: Seq<char>) -> Seq<char>;

/// The text of the digit `d`, below 16.
fn digit_str(d: u64) -> (r: &'static str)
    requires
        d < 16,
    ensures
        r@ == seq![hex_digit(d as nat)],
{
    proof {
        reveal_strlit("0");
        reveal_strlit("1");
        reveal_strlit("2");
        reveal_strlit("3");
        reveal_strlit("4");
        reveal_strlit("5");
        reveal_strlit("6");
        reveal_strlit("7");
        reveal_strlit("8");
        reveal_strlit("9");
        reveal_strlit("a");
        reveal_strlit("b");
        reveal_strlit("c");
        reveal_strlit("d");
        reveal_strlit("e");
        reveal_strlit("f");
    }
    if d == 0 {
        "0"
    } else if d == 1 {
        "1"
    } else if d == 2 {
        "2"
    } else if d == 3 {
        "3"
    } else if d == 4 {
        "4"
    } else if d == 5 {
        "5"
    } else if d == 6 {
        "6"
    } else if d == 7 {
        "7"
    } else if d == 8 {
        "8"
    } else if d == 9 {
        "9"
    } else if d == 10 {
        "a"
    } else if d == 11 {
        "b"
    } else if d == 12 {
        "c"
    } else if d == 13 {
        "d"
    } else if d == 14 {
        "e"
    } else {
        "f"
    }
}

/// Appends `n` in decimal to `out`.
pub(crate) fn write_decimal(out: &mut String, n: u64)
    ensures
        final(out)@ == old(out)@ + decimal_digits(n as nat),
    decreases n,
{
    let ghost start = out@;
    if n >= 10 {
        write_decimal(out, n / 10);
    }
    push_str(out, digit_str(n % 10));
    proof {
        assert(hex_digit((n % 10) as nat) == (48 + (n as nat) % 10) as char);
        if n >= 10 {
            assert(out@ =~= start + decimal_digits(n as nat));
        } else {
            assert(out@ =~= start + decimal_digits(n as nat));
        }
    }
}

/// Appends `n` in hexadecimal to `out`.
fn write_hex(out: &mut String, n: u64)
    ensures
        final(out)@ == old(out)@ + hex_digits(n as nat),
    decreases n,
{
    let ghost start = out@;
    if n >= 16 {
        write_hex(out, n / 16);
    }
    push_str(out, digit_str(n % 16));
    proof {
        assert(out@ =~= start + hex_digits(n as nat));
    }
}

/// Appends `n` in decimal to `out`, with a `-` before it when it is negative.
fn write_int(out: &mut String, n: i64)
    ensures
        final(out)@ == old(out)@ + int_text(n as int),
{
    let ghost start = out@;
    if n < 0 {
        proof {
            reveal_strlit("-");
        }
        push_str(out, "-");
        let wide: i128 = 0i128 - (n as i128);
        let m: u64 = wide as u64;
        write_decimal(out, m);
        proof {
            assert(m as int == -(n as int));
            assert(out@ =~= start + int_text(n as int));
        }
    } else {
        write_decimal(out, n as u64);
    }
}

/// `s` as std's `Debug` for `str` writes it; see [`quoted_text`].
#[verifier::external_body]
fn quoted(s: &str) -> (r: String)
    ensures
        r@ == quoted_text(s@),
{
    format!("{:?}", s)
}

/// The names of variables that a context gives, if there is one.
pub open spec fn variable_names(context: Option<&Context>) -> Option<Seq<Seq<char>>> {
    match context {
        Some(c) => Some(c@.variables),
        None => None,
    }
}

/// The text of an atom: its text in `atoms`, or `#` and its number.
pub open spec fn atom_text(atoms: Seq<Seq<char>>, a: Atom) -> Seq<char> {
    if a.spec_index() < atoms.len() {
        atoms[a.spec_index() as int]
    } else {
        seq!['#'] + decimal_digits(a.spec_index())
    }
}

/// The text of a variable: its name in `names` (a made-up variable has none), or `$` and
/// its number; then `@` and its generation, or `@_`.
pub open spec fn variable_text(names: Option<Seq<Seq<char>>>, v: Variable) -> Seq<char> {
    let i = v.identifier.spec_index();
    let name = match names {
        Some(ns) => if v.identifier.spec_kind() != IdentifierKind::Fresh && i < ns.len() {
            ns[i as int]
        } else {
            seq!['$'] + decimal_digits(i as nat)
        },
        None => seq!['$'] + decimal_digits(i as nat),
    };
    name + match v.generation {
        Some(g) => seq!['@'] + decimal_digits(g as nat),
        None => seq!['@', '_'],
    }
}

/// The text of a literal: an integer in decimal, a fraction as its numerator, `/` and its
/// denominator, a string in quotes.
pub open spec fn literal_text(l: Literal) -> Seq<char> {
    match l {
        Literal::Integer(i) => int_text(i as int),
        Literal::Rational(n, d) => int_text(n as int) + seq!['/'] + decimal_digits(d as nat),
        Literal::String(s) => quoted_text(s@),
    }
}

/// The text of a pattern.
pub open spec fn pattern_text(atoms: Seq<Seq<char>>, names: Option<Seq<Seq<char>>>, p: Pattern) -> Seq<char>
    decreases p,
{
    kind_text(atoms, names, *p.kind)
}

/// The text of a shape: `[a, b]` or `[a, b, ..rest]` for a list, `{ k: a }` or
/// `{ k: a, ..rest }` for a record, `name`, `name (contents)` or `name [..]` for a
/// structure, `[0x..]` for a host value, `!` and `?` for bound and unbound, and the
/// patterns one after the other for several that must all match.
pub open spec fn kind_text(atoms: Seq<Seq<char>>, names: Option<Seq<Seq<char>>>, k: PatternKind) -> Seq<char>
    decreases k,
{
    match k {
        PatternKind::Literal(l) => literal_text(l),
        PatternKind::List(items, tail) => seq!['['] + items_text(atoms, names, items) + match tail {
            Some(t) => seq![',', ' ', '.', '.'] + pattern_text(atoms, names, t) + seq![']'],
            None => seq![']'],
        },
        PatternKind::Record(fields, tail) => seq!['{', ' '] + fields_text(atoms, names, fields) + match tail {
            Some(t) => seq![',', ' ', '.', '.'] + pattern_text(atoms, names, t) + seq![' ', '}'],
            None => seq![' ', '}'],
        },
        PatternKind::Struct(name, None) => atom_text(atoms, name),
        PatternKind::Struct(name, Some(contents)) => if *contents.kind is List || *contents.kind is Record {
            atom_text(atoms, name) + seq![' '] + pattern_text(atoms, names, contents)
        } else {
            atom_text(atoms, name) + seq![' ', '('] + pattern_text(atoms, names, contents) + seq![')']
        },
        PatternKind::Any(id) => seq!['[', '0', 'x'] + hex_digits(id as nat) + seq![']'],
        PatternKind::Variable(v) => variable_text(names, v),
        PatternKind::Bound => seq!['!'],
        PatternKind::Unbound => seq!['?'],
        PatternKind::All(items) => all_text(atoms, names, items),
    }
}

/// The texts of the patterns of a list, separated by `, `.
pub open spec fn items_text(atoms: Seq<Seq<char>>, names: Option<Seq<Seq<char>>>, l: PatternList) -> Seq<char>
    decreases l,
{
    match l {
        PatternList::Nil => Seq::empty(),
        PatternList::Cons(p, rest) => pattern_text(atoms, names, p) + match *rest {
            PatternList::Nil => Seq::empty(),
            _ => seq![',', ' '] + items_text(atoms, names, *rest),
        },
    }
}

/// The texts of the fields of a record, each as `name: pattern`, separated by `, `.
pub open spec fn fields_text(atoms: Seq<Seq<char>>, names: Option<Seq<Seq<char>>>, f: FieldList) -> Seq<char>
    decreases f,
{
    match f {
        FieldList::Nil => Seq::empty(),
        FieldList::Cons(k, p, rest) => atom_text(atoms, k) + seq![':', ' '] + pattern_text(atoms, names, p) + match *rest {
            FieldList::Nil => Seq::empty(),
            _ => seq![',', ' '] + fields_text(atoms, names, *rest),
        },
    }
}

/// The texts of the patterns of a list, one after the other.
pub open spec fn all_text(atoms: Seq<Seq<char>>, names: Option<Seq<Seq<char>>>, l: PatternList) -> Seq<char>
    decreases l,
{
    match l {
        PatternList::Nil => Seq::empty(),
        PatternList::Cons(p, rest) => pattern_text(atoms, names, p) + all_text(atoms, names, *rest),
    }
}

/// Appends `s` to `out`.
fn push_str(out: &mut String, s: &str)
    ensures
        final(out)@ == old(out)@ + s@,
{
    out.append(s);
}

/// Appends the text of an atom; see [`atom_text`].
fn write_atom(out: &mut String, atoms: &Atomizer, a: Atom)
    ensures
        final(out)@ == old(out)@ + atom_text(atoms@, a),
{
    if a.index() < atoms.len() {
        push_str(out, atoms.name(a));
    } else {
        proof {
            reveal_strlit("#");
        }
        push_str(out, "#");
        write_decimal(out, a.index() as u64);
        proof {
            assert(final(out)@ =~= old(out)@ + atom_text(atoms@, a));
        }
    }
}

/// Appends the text of a variable; see [`variable_text`].
fn write_variable(out: &mut String, context: Option<&Context>, v: Variable)
    ensures
        final(out)@ == old(out)@ + variable_text(variable_names(context), v),
{
    let ghost start = out@;
    let name = match context {
        Some(c) => v.name(c),
        None => None,
    };
    match name {
        Some(n) => push_str(out, n),
        None => {
            proof {
                reveal_strlit("$");
            }
            push_str(out, "$");
            write_decimal(out, v.identifier().index() as u64);
        },
    }
    let ghost named = out@;
    match v.generation() {
        Some(g) => {
            proof {
                reveal_strlit("@");
            }
            push_str(out, "@");
            write_decimal(out, g as u64);
        },
        None => {
            proof {
                reveal_strlit("@_");
            }
            push_str(out, "@_");
        },
    }
    proof {
        assert(out@ =~= start + variable_text(variable_names(context), v));
    }
}

/// Appends the text of a literal; see [`literal_text`].
fn write_literal(out: &mut String, l: &Literal)
    ensures
        final(out)@ == old(out)@ + literal_text(*l),
{
    match l {
        Literal::Integer(i) => write_int(out, *i),
        Literal::Rational(n, d) => {
            let ghost start = out@;
            write_int(out, *n);
            proof {
                reveal_strlit("/");
            }
            push_str(out, "/");
            write_decimal(out, *d);
            proof {
                assert(out@ =~= start + literal_text(*l));
            }
        },
        Literal::String(s) => push_str(out, quoted(s.as_str()).as_str()),
    }
}

impl Pattern {
    /// Appends the text of this pattern to `out`; see [`pattern_text`].
    pub fn write_text(&self, out: &mut String, atoms: &Atomizer, context: Option<&Context>)
        ensures
            final(out)@ == old(out)@ + pattern_text(atoms@, variable_names(context), *self),
        decreases self,
    {
        self.kind.write_text(out, atoms, context);
    }

    /// The text of this pattern; see [`pattern_text`].
    pub fn text(&self, atoms: &Atomizer, context: Option<&Context>) -> (r: String)
        ensures
            r@ == pattern_text(atoms@, variable_names(context), *self),
    {
        let mut out = String::new();
        self.write_text(&mut out, atoms, context);
        proof {
            assert(out@ =~= pattern_text(atoms@, variable_names(context), *self));
        }
        out
    }
}

impl PatternKind {
    /// Appends the text of this shape to `out`; see [`kind_text`].
    pub fn write_text(&self, out: &mut String, atoms: &Atomizer, context: Option<&Context>)
        ensures
            final(out)@ == old(out)@ + kind_text(atoms@, variable_names(context), *self),
        decreases self,
    {
        let ghost start = out@;
        let ghost names = variable_names(context);
        match self {
            PatternKind::Literal(l) => write_literal(out, l),
            PatternKind::List(items, tail) => {
                proof {
                    reveal_strlit("[");
                    reveal_strlit(", ..");
                    reveal_strlit("]");
                }
                push_str(out, "[");
                items.write_items(out, atoms, context);
                match tail {
                    Some(t) => {
                        push_str(out, ", ..");
                        t.write_text(out, atoms, context);
                        push_str(out, "]");
                    },
                    None => push_str(out, "]"),
                }
                proof {
                    assert(out@ =~= start + kind_text(atoms@, names, *self));
                }
            },
            PatternKind::Record(fields, tail) => {
                proof {
                    reveal_strlit("{ ");
                    reveal_strlit(", ..");
                    reveal_strlit(" }");
                }
                push_str(out, "{ ");
                fields.write_fields(out, atoms, context);
                match tail {
                    Some(t) => {
                        push_str(out, ", ..");
                        t.write_text(out, atoms, context);
                        push_str(out, " }");
                    },
                    None => push_str(out, " }"),
                }
                proof {
                    assert(out@ =~= start + kind_text(atoms@, names, *self));
                }
            },
            PatternKind::Struct(name, None) => write_atom(out, atoms, *name),
            PatternKind::Struct(name, Some(contents)) => {
                proof {
                    reveal_strlit(" ");
                    reveal_strlit(" (");
                    reveal_strlit(")");
                }
                write_atom(out, atoms, *name);
                if contents.kind().is_container() {
                    push_str(out, " ");
                    contents.write_text(out, atoms, context);
                } else {
                    push_str(out, " (");
                    contents.write_text(out, atoms, context);
                    push_str(out, ")");
                }
                proof {
                    assert(out@ =~= start + kind_text(atoms@, names, *self));
                }
            },
            PatternKind::Any(id) => {
                proof {
                    reveal_strlit("[");
                    reveal_strlit("]");
                }
                proof {
                    reveal_strlit("0x");
                }
                push_str(out, "[");
                push_str(out, "0x");
                write_hex(out, *id);
                push_str(out, "]");
                proof {
                    assert(out@ =~= start + kind_text(atoms@, names, *self));
                }
            },
            PatternKind::Variable(v) => write_variable(out, context, *v),
            PatternKind::Bound => {
                proof {
                    reveal_strlit("!");
                }
                push_str(out, "!");
            },
            PatternKind::Unbound => {
                proof {
                    reveal_strlit("?");
                }
                push_str(out, "?");
            },
            PatternKind::All(items) => items.write_all(out, atoms, context),
        }
    }
}

impl PatternList {
    /// Appends the texts of these patterns to `out`, separated by `, `; see
    /// [`items_text`].
    pub fn write_items(&self, out: &mut String, atoms: &Atomizer, context: Option<&Context>)
        ensures
            final(out)@ == old(out)@ + items_text(atoms@, variable_names(context), *self),
        decreases self,
    {
        let ghost start = out@;
        match self {
            PatternList::Nil => {
                assert(out@ =~= start + items_text(atoms@, variable_names(context), *self));
            },
            PatternList::Cons(p, rest) => {
                p.write_text(out, atoms, context);
                match &**rest {
                    PatternList::Nil => {},
                    _ => {
                        proof {
                            reveal_strlit(", ");
                        }
                        push_str(out, ", ");
                        (**rest).write_items(out, atoms, context);
                    },
                }
                proof {
                    assert(out@ =~= start + items_text(atoms@, variable_names(context), *self));
                }
            },
        }
    }

    /// Appends the texts of these patterns to `out`, one after the other; see
    /// [`all_text`].
    pub fn write_all(&self, out: &mut String, atoms: &Atomizer, context: Option<&Context>)
        ensures
            final(out)@ == old(out)@ + all_text(atoms@, variable_names(context), *self),
        decreases self,
    {
        let ghost start = out@;
        match self {
            PatternList::Nil => {
                assert(out@ =~= start + all_text(atoms@, variable_names(context), *self));
            },
            PatternList::Cons(p, rest) => {
                p.write_text(out, atoms, context);
                (**rest).write_all(out, atoms, context);
                proof {
                    assert(out@ =~= start + all_text(atoms@, variable_names(context), *self));
                }
            },
        }
    }
}

impl FieldList {
    /// Appends the texts of these fields to `out`; see [`fields_text`].
    pub fn write_fields(&self, out: &mut String, atoms: &Atomizer, context: Option<&Context>)
        ensures
            final(out)@ == old(out)@ + fields_text(atoms@, variable_names(context), *self),
        decreases self,
    {
        let ghost start = out@;
        match self {
            FieldList::Nil => {
                assert(out@ =~= start + fields_text(atoms@, variable_names(context), *self));
            },
            FieldList::Cons(k, p, rest) => {
                proof {
                    reveal_strlit(": ");
                    reveal_strlit(", ");
                }
                write_atom(out, atoms, *k);
                push_str(out, ": ");
                p.write_text(out, atoms, context);
                match &**rest {
                    FieldList::Nil => {},
                    _ => {
                        push_str(out, ", ");
                        (**rest).write_fields(out, atoms, context);
                    },
                }
                proof {
                    assert(out@ =~= start + fields_text(atoms@, variable_names(context), *self));
                }
            },
        }
    }
}


/// The text of the atoms of a path, separated by `::`.
pub open spec fn path_text(atoms: Seq<Seq<char>>, path: Seq<Atom>) -> Seq<char>
    decreases path.len(),
{
    if path.len() == 0 {
        Seq::empty()
    } else if path.len() == 1 {
        atom_text(atoms, path[0])
    } else {
        path_text(atoms, path.drop_last()) + seq![':', ':'] + atom_text(atoms, path.last())
    }
}

/// The text of a scope: `@`, its library and `::` when it has one, then its path, or `~`
/// for the root.
pub open spec fn scope_text(atoms: Seq<Seq<char>>, s: ScopeView) -> Seq<char> {
    (match s.lib {
        Some(l) => seq!['@'] + atom_text(atoms, l) + seq![':', ':'],
        None => Seq::empty(),
    }) + if s.path.len() == 0 {
        seq!['~']
    } else {
        path_text(atoms, s.path)
    }
}

/// The text of one part of an arity: `/` and a number of unnamed arguments, or `:` and the
/// name of a named one.
pub open spec fn arity_text(atoms: Seq<Seq<char>>, a: Arity) -> Seq<char> {
    match a {
        Arity::Len(n) => seq!['/'] + decimal_digits(n as nat),
        Arity::Name(name) => seq![':'] + atom_text(atoms, name),
    }
}

/// The texts of the parts of an arity, one after the other.
pub open spec fn arities_text(atoms: Seq<Seq<char>>, a: Seq<Arity>) -> Seq<char>
    decreases a.len(),
{
    if a.len() == 0 {
        Seq::empty()
    } else {
        arities_text(atoms, a.drop_last()) + arity_text(atoms, a.last())
    }
}

/// The text of a handle: its scope, then its arity.
pub open spec fn handle_text(atoms: Seq<Seq<char>>, h: HandleView) -> Seq<char> {
    scope_text(atoms, h.scope) + arities_text(atoms, h.arity)
}

/// The text of one entry of a binding: a tab, the variable, its generation (the current one
/// when it has none) in brackets, ` = ` and its pattern, and a new line.
pub open spec fn entry_text(atoms: Seq<Seq<char>>, names: Option<Seq<Seq<char>>>, current: usize, e: (Variable, Pattern)) -> Seq<char> {
    let g = match e.0.generation {
        Some(g) => g,
        None => current,
    };
    seq!['\t'] + variable_text(names, e.0) + seq![' ', '('] + decimal_digits(g as nat) + seq![')', ' ', '=', ' ']
        + pattern_text(atoms, names, e.1) + seq!['\n']
}

/// The texts of the entries of a binding, one after the other.
pub open spec fn entries_text(atoms: Seq<Seq<char>>, names: Option<Seq<Seq<char>>>, current: usize, es: Seq<(Variable, Pattern)>) -> Seq<char>
    decreases es.len(),
{
    if es.len() == 0 {
        Seq::empty()
    } else {
        entries_text(atoms, names, current, es.drop_last()) + entry_text(atoms, names, current, es.last())
    }
}

/// The text of a binding: `Binding {}` when it has no entries, else `Binding {`, a new line,
/// its entries and `}`.
pub open spec fn binding_text(atoms: Seq<Seq<char>>, names: Option<Seq<Seq<char>>>, b: BindingView) -> Seq<char> {
    if b.entries.len() == 0 {
        seq!['B', 'i', 'n', 'd', 'i', 'n', 'g', ' ', '{', '}']
    } else {
        seq!['B', 'i', 'n', 'd', 'i', 'n', 'g', ' ', '{', '\n'] + entries_text(atoms, names, b.generation(), b.entries) + seq!['}']
    }
}

impl Scope {
    /// The text of this scope; see [`scope_text`].
    pub fn text(&self, atoms: &Atomizer) -> (r: String)
        ensures
            r@ == scope_text(atoms@, self@),
    {
        let mut out = String::new();
        proof {
            reveal_strlit("@");
            reveal_strlit("::");
            reveal_strlit("~");
        }
        match self.lib() {
            Some(l) => {
                push_str(&mut out, "@");
                write_atom(&mut out, atoms, l);
                push_str(&mut out, "::");
            },
            None => {},
        }
        let ghost head = out@;
        let path = self.path();
        if path.len() == 0 {
            push_str(&mut out, "~");
        } else {
            let mut i: usize = 0;
            while i < path.len()
                invariant
                    i <= path@.len(),
                    path@ == self@.path,
                    out@ == head + path_text(atoms@, path@.subrange(0, i as int)),
                decreases path@.len() - i,
            {
                proof {
                    let next = path@.subrange(0, i as int + 1);
                    assert(next.drop_last() =~= path@.subrange(0, i as int));
                    assert(next.last() == path@[i as int]);
                }
                let ghost before = out@;
                proof {
                    reveal_strlit("::");
                }
                if i > 0 {
                    push_str(&mut out, "::");
                }
                let ghost sep = out@;
                write_atom(&mut out, atoms, path[i]);
                proof {
                    let next = path@.subrange(0, i as int + 1);
                    assert(out@ == sep + atom_text(atoms@, path@[i as int]));
                    if i == 0 {
                        assert(path@.subrange(0, 0) =~= Seq::<Atom>::empty());
                        assert(sep == before);
                        assert(next.len() == 1);
                        assert(path_text(atoms@, next) == atom_text(atoms@, next[0]));
                        assert(out@ =~= head + path_text(atoms@, next));
                    } else {
                        assert(sep =~= before + seq![':', ':']);
                        assert(path_text(atoms@, next) == path_text(atoms@, next.drop_last()) + seq![':', ':'] + atom_text(atoms@, next.last()));
                        assert(out@ =~= head + path_text(atoms@, next));
                    }
                }
                i = i + 1;
            }
            proof {
                assert(path@.subrange(0, path@.len() as int) =~= path@);
            }
        }
        proof {
            assert(out@ =~= scope_text(atoms@, self@));
        }
        out
    }
}

impl Arity {
    /// Appends the text of this part of an arity; see [`arity_text`].
    pub fn write_text(&self, out: &mut String, atoms: &Atomizer)
        ensures
            final(out)@ == old(out)@ + arity_text(atoms@, *self),
    {
        let ghost start = out@;
        match self {
            Arity::Len(n) => {
                proof {
                    reveal_strlit("/");
                }
                push_str(out, "/");
                write_decimal(out, *n);
            },
            Arity::Name(name) => {
                proof {
                    reveal_strlit(":");
                }
                push_str(out, ":");
                write_atom(out, atoms, *name);
            },
        }
        proof {
            assert(out@ =~= start + arity_text(atoms@, *self));
        }
    }
}

impl Handle {
    /// The text of this handle; see [`handle_text`].
    pub fn text(&self, atoms: &Atomizer) -> (r: String)
        ensures
            r@ == handle_text(atoms@, self@),
    {
        let mut out = self.scope().text(atoms);
        let ghost head = out@;
        let arity = self.arity();
        let mut i: usize = 0;
        while i < arity.len()
            invariant
                i <= arity@.len(),
                arity@ == self@.arity,
                out@ == head + arities_text(atoms@, arity@.subrange(0, i as int)),
            decreases arity@.len() - i,
        {
            arity[i].write_text(&mut out, atoms);
            proof {
                let next = arity@.subrange(0, i as int + 1);
                assert(next.drop_last() =~= arity@.subrange(0, i as int));
                assert(out@ =~= head + arities_text(atoms@, next));
            }
            i = i + 1;
        }
        proof {
            assert(arity@.subrange(0, arity@.len() as int) =~= arity@);
        }
        out
    }
}

impl Literal {
    /// The text of this literal; see [`literal_text`].
    pub fn text(&self) -> (r: String)
        ensures
            r@ == literal_text(*self),
    {
        let mut out = String::new();
        write_literal(&mut out, self);
        proof {
            assert(out@ =~= literal_text(*self));
        }
        out
    }
}

impl Variable {
    /// The text of this variable; see [`variable_text`].
    pub fn text(&self, context: Option<&Context>) -> (r: String)
        ensures
            r@ == variable_text(variable_names(context), *self),
    {
        let mut out = String::new();
        write_variable(&mut out, context, *self);
        proof {
            assert(out@ =~= variable_text(variable_names(context), *self));
        }
        out
    }
}

impl Binding {
    /// The text of this binding; see [`binding_text`].
    pub fn text(&self, atoms: &Atomizer, context: Option<&Context>) -> (r: String)
        requires
            self@.wf(),
        ensures
            r@ == binding_text(atoms@, variable_names(context), self@),
    {
        let entries = self.entries();
        let mut out = String::new();
        if entries.len() == 0 {
            proof {
                reveal_strlit("Binding {}");
            }
            push_str(&mut out, "Binding {}");
            proof {
                assert(out@ =~= binding_text(atoms@, variable_names(context), self@));
            }
            return out;
        }
        proof {
            reveal_strlit("Binding {\n");
            reveal_strlit("\t");
            reveal_strlit(" (");
            reveal_strlit(") = ");
            reveal_strlit("\n");
            reveal_strlit("}");
        }
        push_str(&mut out, "Binding {\n");
        let ghost head = out@;
        let ghost names = variable_names(context);
        let current = self.generation();
        let mut i: usize = 0;
        while i < entries.len()
            invariant
                i <= entries@.len(),
                entries@ == self@.entries,
                current == self@.generation(),
                names == variable_names(context),
                out@ == head + entries_text(atoms@, names, current, entries@.subrange(0, i as int)),
            decreases entries@.len() - i,
        {
            let ghost before = out@;
            proof {
                reveal_strlit("\t");
                reveal_strlit(" (");
                reveal_strlit(") = ");
                reveal_strlit("\n");
            }
            let (v, p) = &entries[i];
            assert(*v == entries@[i as int].0 && *p == entries@[i as int].1);
            push_str(&mut out, "\t");
            let ghost s1 = out@;
            write_variable(&mut out, context, *v);
            let ghost s2 = out@;
            push_str(&mut out, " (");
            let g = match v.generation() {
                Some(g) => g,
                None => current,
            };
            let ghost s3 = out@;
            write_decimal(&mut out, g as u64);
            let ghost s4 = out@;
            push_str(&mut out, ") = ");
            let ghost s5 = out@;
            p.write_text(&mut out, atoms, context);
            let ghost s6 = out@;
            push_str(&mut out, "\n");
            proof {
                assert((g as u64) as nat == g as nat);
                assert(s1 =~= before + seq!['\t']);
                assert(s2 == s1 + variable_text(names, *v));
                assert(s3 =~= s2 + seq![' ', '(']);
                assert(s4 == s3 + decimal_digits(g as nat));
                assert(s5 =~= s4 + seq![')', ' ', '=', ' ']);
                assert(s6 == s5 + pattern_text(atoms@, names, *p));
                assert(out@ =~= s6 + seq!['\n']);
            }
            proof {
                let next = entries@.subrange(0, i as int + 1);
                assert(next.drop_last() =~= entries@.subrange(0, i as int));
                assert(next.last() == entries@[i as int]);
                assert(out@ =~= before + entry_text(atoms@, names, current, entries@[i as int]));
                assert(out@ =~= head + entries_text(atoms@, names, current, next));
            }
            i = i + 1;
        }
        push_str(&mut out, "}");
        proof {
            assert(entries@.subrange(0, entries@.len() as int) =~= entries@);
            assert(out@ =~= binding_text(atoms@, variable_names(context), self@));
        }
        out
    }
}
} // verus!

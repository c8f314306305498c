//! Scopes: paths to modules and to the rules defined in them.
use crate::atom::{Atom, Atomizer};
use std::cmp::Ordering;
use vstd::prelude::*;

verus! {

/// The mathematical value of a [`Scope`].
#[verifier::ext_equal]
pub ghost struct ScopeView {
    /// The library the rule is defined in, if not defined by the user.
    pub lib: Option<Atom>,
    /// The path to the rule, relative to the library root.
    pub path: Seq<Atom>,
}

/// Whether `prefix` is a prefix of `path`.
pub open spec fn is_prefix_of(prefix: Seq<Atom>, path: Seq<Atom>) -> bool {
    prefix.len() <= path.len() && path.subrange(0, prefix.len() as int) == prefix
}

/// Whether scope `outer` encloses scope `inner`: both belong to the same library and the
/// path of `outer` is a prefix of the path of `inner`. A scope encloses itself.
pub open spec fn encloses(outer: ScopeView, inner: ScopeView) -> bool {
    outer.lib == inner.lib && is_prefix_of(outer.path, inner.path)
}

/// The order of scopes: a scope is greater than the scopes it strictly encloses, less than
/// those that strictly enclose it, equal to itself, and unordered with every other scope.
pub open spec fn scope_order(a: ScopeView, b: ScopeView) -> Option<Ordering> {
    if a == b {
        Some(Ordering::Equal)
    } else if encloses(a, b) {
        Some(Ordering::Greater)
    } else if encloses(b, a) {
        Some(Ordering::Less)
    } else {
        None
    }
}

/// Whether `a >= b` in the order of scopes, that is, whether `a` encloses `b`.
pub open spec fn scope_ge(a: ScopeView, b: ScopeView) -> bool {
    scope_order(a, b) == Some(Ordering::Greater) || scope_order(a, b) == Some(Ordering::Equal)
}

/// The start of a scope written in a Lumber program, before its path of atoms.
#[derive(Clone, Copy, PartialEq, Eq, Structural, Debug)]
pub enum ScopePrefix {
    /// `@lib::`, the root of a linked library.
    Lib(Atom),
    /// `~::`, the root of the program.
    Root,
    /// `^::` repeated: this many modules above the current one.
    Up(usize),
}

/// A path to a defined rule.
#[derive(Debug)]
pub struct Scope {
    /// The library the rule is defined in, if not defined by the user.
    lib: Option<Atom>,
    /// The path to this rule, relative to the library root.
    path: Vec<Atom>,
}

impl View for Scope {
    type V = ScopeView;

    closed spec fn view(&self) -> ScopeView {
        ScopeView { lib: self.lib, path: self.path@ }
    }
}

/// Copies a sequence of atoms.
pub fn copy_atoms(atoms: &[Atom]) -> (r: Vec<Atom>)
    ensures
        r@ == atoms@,
{
    let mut r: Vec<Atom> = Vec::new();
    let mut i: usize = 0;
    while i < atoms.len()
        invariant
            0 <= i <= atoms@.len(),
            r@ == atoms@.subrange(0, i as int),
        decreases atoms@.len() - i,
    {
        r.push(atoms[i]);
        i = i + 1;
        proof {
            assert(r@ =~= atoms@.subrange(0, i as int));
        }
    }
    assert(r@ =~= atoms@);
    r
}

/// Whether two sequences of atoms are equal.
pub fn atoms_equal(a: &[Atom], b: &[Atom]) -> (r: bool)
    ensures
        r == (a@ == b@),
{
    if a.len() != b.len() {
        return false;
    }
    let mut i: usize = 0;
    while i < a.len()
        invariant
            a@.len() == b@.len(),
            0 <= i <= a@.len(),
            forall|j: int| 0 <= j < i ==> a@[j] == b@[j],
        decreases a@.len() - i,
    {
        if a[i] != b[i] {
            return false;
        }
        i = i + 1;
    }
    assert(a@ =~= b@);
    true
}

/// Whether `prefix` is a prefix of `path`.
pub fn atoms_prefix(prefix: &[Atom], path: &[Atom]) -> (r: bool)
    ensures
        r == is_prefix_of(prefix@, path@),
{
    if prefix.len() > path.len() {
        return false;
    }
    let mut i: usize = 0;
    while i < prefix.len()
        invariant
            prefix@.len() <= path@.len(),
            0 <= i <= prefix@.len(),
            forall|j: int| 0 <= j < i ==> prefix@[j] == path@[j],
        decreases prefix@.len() - i,
    {
        if prefix[i] != path[i] {
            assert(path@.subrange(0, prefix@.len() as int)[i as int] != prefix@[i as int]);
            return false;
        }
        i = i + 1;
    }
    assert(path@.subrange(0, prefix@.len() as int) =~= prefix@);
    true
}

impl Scope {
    /// The root scope of the program: no library and an empty path.
    pub fn root() -> (r: Scope)
        ensures
            r@ == (ScopeView { lib: None, path: Seq::empty() }),
    {
        let r = Scope { lib: None, path: Vec::new() };
        assert(r@ =~= ScopeView { lib: None, path: Seq::empty() });
        r
    }

    /// The root scope of the library `lib`.
    pub fn library_root(lib: Atom) -> (r: Scope)
        ensures
            r@ == (ScopeView { lib: Some(lib), path: Seq::empty() }),
    {
        let r = Scope { lib: Some(lib), path: Vec::new() };
        assert(r@ =~= ScopeView { lib: Some(lib), path: Seq::empty() });
        r
    }

    /// A scope with the given library and path.
    pub fn from_parts(lib: Option<Atom>, path: &[Atom]) -> (r: Scope)
        ensures
            r@ == (ScopeView { lib: lib, path: path@ }),
    {
        Scope { lib, path: copy_atoms(path) }
    }

    /// The scope `@core::name` of a built-in rule.
    pub fn builtin(name: &str, atomizer: &mut Atomizer) -> (r: Scope)
        requires
            old(atomizer).wf(),
        ensures
            final(atomizer).wf(),
            old(atomizer)@.is_prefix_of(final(atomizer)@),
            r@.path.len() == 1,
            r@.lib.is_some(),
            final(atomizer).contains(r@.lib.unwrap()),
            final(atomizer).name_of(r@.lib.unwrap()) == "core"@,
            final(atomizer).contains(r@.path[0]),
            final(atomizer).name_of(r@.path[0]) == name@,
    {
        let ghost a0 = atomizer@;
        let lib = atomizer.atomize_str("core");
        let ghost a1 = atomizer@;
        let head = atomizer.atomize_str(name);
        proof {
            assert(a0.is_prefix_of(a1));
            assert(a1.is_prefix_of(atomizer@));
            assert(atomizer@[lib.spec_index() as int] == a1[lib.spec_index() as int]);
        }
        let mut path: Vec<Atom> = Vec::new();
        path.push(head);
        Scope { lib: Some(lib), path }
    }

    /// The library of this scope.
    pub fn lib(&self) -> (r: Option<Atom>)
        ensures
            r == self@.lib,
    {
        self.lib
    }

    /// The atoms of this scope's path, from the library root down.
    pub fn path(&self) -> (r: &[Atom])
        ensures
            r@ == self@.path,
    {
        self.path.as_slice()
    }

    /// A copy of this scope.
    pub fn copy(&self) -> (r: Scope)
        ensures
            r@ == self@,
    {
        Scope { lib: self.lib, path: copy_atoms(self.path.as_slice()) }
    }

    /// Whether two scopes are the same scope.
    pub fn same(&self, other: &Scope) -> (r: bool)
        ensures
            r == (self@ == other@),
    {
        let r = self.lib == other.lib && atoms_equal(self.path.as_slice(), other.path.as_slice());
        proof {
            if r {
                assert(self@ =~= other@);
            }
        }
        r
    }

    /// Whether this scope encloses `other`; see [`encloses`].
    pub fn encloses(&self, other: &Scope) -> (r: bool)
        ensures
            r == encloses(self@, other@),
    {
        self.lib == other.lib && atoms_prefix(self.path.as_slice(), other.path.as_slice())
    }

    /// Compares two scopes in the order of scopes; see [`scope_order`].
    pub fn partial_cmp(&self, other: &Scope) -> (r: Option<Ordering>)
        ensures
            r == scope_order(self@, other@),
    {
        if self.same(other) {
            Some(Ordering::Equal)
        } else if self.encloses(other) {
            Some(Ordering::Greater)
        } else if other.encloses(self) {
            Some(Ordering::Less)
        } else {
            None
        }
    }

    /// Whether `self >= other` in the order of scopes.
    pub fn ge(&self, other: &Scope) -> (r: bool)
        ensures
            r == scope_ge(self@, other@),
    {
        match self.partial_cmp(other) {
            Some(Ordering::Greater) => true,
            Some(Ordering::Equal) => true,
            _ => false,
        }
    }

    /// The child of this scope named `atom`.
    pub fn join(&self, atom: Atom) -> (r: Scope)
        ensures
            r@ == (ScopeView { lib: self@.lib, path: self@.path.push(atom) }),
    {
        let mut path = copy_atoms(self.path.as_slice());
        path.push(atom);
        Scope { lib: self.lib, path }
    }

    /// Descends into the child named `atom`.
    pub fn push(&mut self, atom: Atom)
        ensures
            final(self)@ == (ScopeView { lib: old(self)@.lib, path: old(self)@.path.push(atom) }),
    {
        self.path.push(atom);
    }

    /// Ascends to the parent scope.
    pub fn pop(&mut self)
        requires
            old(self)@.path.len() > 0,
        ensures
            final(self)@ == (ScopeView { lib: old(self)@.lib, path: old(self)@.path.drop_last() }),
    {
        self.path.pop();
    }

    /// The parent of this scope.
    pub fn drop(&self) -> (r: Scope)
        requires
            self@.path.len() > 0,
        ensures
            r@ == (ScopeView { lib: self@.lib, path: self@.path.drop_last() }),
    {
        let mut scope = self.copy();
        scope.pop();
        scope
    }

    /// The last atom of this scope's path.
    pub fn head(&self) -> (r: Atom)
        requires
            self@.path.len() > 0,
        ensures
            r == self@.path.last(),
    {
        self.path[self.path.len() - 1]
    }

    /// Whether this scope's path is empty.
    pub fn is_root(&self) -> (r: bool)
        ensures
            r == (self@.path.len() == 0),
    {
        self.path.len() == 0
    }

    /// The scope that a prefix written inside the module `current` stands for, or `None`
    /// when the prefix climbs above the root of the program.
    pub fn from_prefix(prefix: ScopePrefix, current: &Scope) -> (r: Option<Scope>)
        ensures
            match prefix {
                ScopePrefix::Lib(lib) => r.is_some() && r.unwrap()@ == (ScopeView { lib: Some(lib), path: Seq::<Atom>::empty() }),
                ScopePrefix::Root => r.is_some() && r.unwrap()@ == (ScopeView { lib: None, path: Seq::<Atom>::empty() }),
                ScopePrefix::Up(levels) => if levels <= current@.path.len() {
                    r.is_some() && r.unwrap()@ == (ScopeView { lib: current@.lib, path: current@.path.subrange(0, current@.path.len() - levels) })
                } else {
                    r.is_none()
                },
            },
    {
        match prefix {
            ScopePrefix::Lib(lib) => Some(Scope::library_root(lib)),
            ScopePrefix::Root => Some(Scope::root()),
            ScopePrefix::Up(levels) => {
                let mut scope = current.copy();
                let mut i: usize = 0;
                while i < levels
                    invariant
                        0 <= i <= levels,
                        prefix == ScopePrefix::Up(levels),
                        i <= current@.path.len(),
                        scope@ == (ScopeView { lib: current@.lib, path: current@.path.subrange(0, current@.path.len() - i) }),
                    decreases levels - i,
                {
                    if scope.is_root() {
                        return None;
                    }
                    scope.pop();
                    i = i + 1;
                    proof {
                        assert(scope@.path =~= current@.path.subrange(0, current@.path.len() - i));
                    }
                }
                proof {
                    assert(i == levels);
                }
                Some(scope)
            },
        }
    }
}


/// The order of scopes is reflexive: every scope is `>=` itself.
pub proof fn lemma_scope_ge_reflexive(a: ScopeView)
    ensures
        scope_ge(a, a),
{
}

/// Scopes that enclose each other are the same scope.
pub proof fn lemma_mutual_enclosure(a: ScopeView, b: ScopeView)
    requires
        encloses(a, b),
        encloses(b, a),
    ensures
        a == b,
{
    assert(a.path.len() == b.path.len());
    assert(a.path =~= b.path.subrange(0, a.path.len() as int));
    assert(b.path.subrange(0, b.path.len() as int) =~= b.path);
    assert(a =~= b);
}

/// Enclosure is transitive.
pub proof fn lemma_enclosure_transitive(a: ScopeView, b: ScopeView, c: ScopeView)
    requires
        encloses(a, b),
        encloses(b, c),
    ensures
        encloses(a, c),
{
    assert(c.path.subrange(0, a.path.len() as int) =~= b.path.subrange(0, a.path.len() as int));
}

/// A scope strictly encloses its children.
pub proof fn lemma_encloses_child(a: ScopeView, atom: Atom)
    ensures
        encloses(a, ScopeView { lib: a.lib, path: a.path.push(atom) }),
        !encloses(ScopeView { lib: a.lib, path: a.path.push(atom) }, a),
        (ScopeView { lib: a.lib, path: a.path.push(atom).drop_last() }) == a,
{
    let child = ScopeView { lib: a.lib, path: a.path.push(atom) };
    assert(child.path.subrange(0, a.path.len() as int) =~= a.path);
    assert(a.path.push(atom).drop_last() =~= a.path);
}

/// The order of scopes is antisymmetric: scopes that are `>=` each other are equal.
pub proof fn lemma_scope_ge_antisymmetric(a: ScopeView, b: ScopeView)
    requires
        scope_ge(a, b),
        scope_ge(b, a),
    ensures
        a == b,
{
    if a != b {
        lemma_mutual_enclosure(a, b);
    }
}

/// The order of scopes is transitive.
pub proof fn lemma_scope_ge_transitive(a: ScopeView, b: ScopeView, c: ScopeView)
    requires
        scope_ge(a, b),
        scope_ge(b, c),
    ensures
        scope_ge(a, c),
{
    assert(encloses(a, b) || a == b);
    assert(encloses(b, c) || b == c);
    if a != c {
        if encloses(a, b) && encloses(b, c) {
            lemma_enclosure_transitive(a, b, c);
        }
    }
}

/// Two scopes are ordered as `Less` one way exactly when they are ordered as `Greater`
/// the other way.
pub proof fn lemma_scope_order_converse(a: ScopeView, b: ScopeView)
    ensures
        (scope_order(a, b) == Some(Ordering::Greater)) <==> (scope_order(b, a) == Some(Ordering::Less)),
        (scope_order(a, b) == Some(Ordering::Equal)) <==> (scope_order(b, a) == Some(Ordering::Equal)),
        (scope_order(a, b) is None) <==> (scope_order(b, a) is None),
{
    if encloses(a, b) && encloses(b, a) {
        lemma_mutual_enclosure(a, b);
    }
}

/// A child scope made by `join` is strictly enclosed by its parent (it orders `Less`),
/// and `drop` undoes `join`.
pub proof fn lemma_join_child(a: ScopeView, atom: Atom)
    ensures
        scope_order(ScopeView { lib: a.lib, path: a.path.push(atom) }, a) == Some(Ordering::Less),
        (ScopeView { lib: a.lib, path: a.path.push(atom).drop_last() }) == a,
        a.path.push(atom).last() == atom,
{
    lemma_encloses_child(a, atom);
}

} // verus!

//! Handles: the name and shape of a predicate.
use crate::arity::Arity;
use crate::atom::Atom;
use crate::scope::{Scope, ScopeView};
use vstd::prelude::*;

verus! {

/// The mathematical value of a [`Handle`].
#[verifier::ext_equal]
pub ghost struct HandleView {
    /// The path and name of the predicate or function being described.
    pub scope: ScopeView,
    /// The arity of the predicate or function being described.
    pub arity: Seq<Arity>,
}

impl HandleView {
    /// Whether this handle names a predicate: its scope's path is not empty.
    pub open spec fn named(self) -> bool {
        self.scope.path.len() > 0
    }

    /// The name of the predicate: the last atom of the scope's path.
    pub open spec fn name(self) -> Atom {
        self.scope.path.last()
    }

    /// Whether two handles have the same name and arity, whatever their modules.
    pub open spec fn like(self, other: HandleView) -> bool {
        self.name() == other.name() && self.arity == other.arity
    }
}

/// The arity after `extend_arity(arity)`: a name is appended; a length is added to a
/// trailing length, or appended when there is none.
pub open spec fn extended_arity(arities: Seq<Arity>, arity: Arity) -> Seq<Arity> {
    match arity {
        Arity::Name(..) => arities.push(arity),
        Arity::Len(len) => if arities.len() > 0 && arities.last() is Len {
            arities.update(arities.len() - 1, Arity::Len((arities.last()->Len_0 + len) as u64))
        } else {
            arities.push(arity)
        },
    }
}

/// A handle to a predicate.
#[derive(Debug)]
pub struct Handle {
    /// The path and name of the predicate or function being described.
    scope: Scope,
    /// The arity of the predicate or function being described.
    arity: Vec<Arity>,
}

impl View for Handle {
    type V = HandleView;

    closed spec fn view(&self) -> HandleView {
        HandleView { scope: self.scope@, arity: self.arity@ }
    }
}

/// Copies a sequence of arities.
pub fn copy_arities(arities: &[Arity]) -> (r: Vec<Arity>)
    ensures
        r@ == arities@,
{
    let mut r: Vec<Arity> = Vec::new();
    let mut i: usize = 0;
    while i < arities.len()
        invariant
            0 <= i <= arities@.len(),
            r@ == arities@.subrange(0, i as int),
        decreases arities@.len() - i,
    {
        r.push(arities[i]);
        i = i + 1;
        proof {
            assert(r@ =~= arities@.subrange(0, i as int));
        }
    }
    assert(r@ =~= arities@);
    r
}

/// Whether two sequences of arities are equal.
pub fn arities_equal(a: &[Arity], b: &[Arity]) -> (r: bool)
    ensures
        r == (a@ == b@),
{
    if a.len() != b.len() {
        return false;
    }
    let mut i: usize = 0;
    while i < a.len()
        invariant
            a@.len() == b@.len(),
            0 <= i <= a@.len(),
            forall|j: int| 0 <= j < i ==> a@[j] == b@[j],
        decreases a@.len() - i,
    {
        if a[i] != b[i] {
            return false;
        }
        i = i + 1;
    }
    assert(a@ =~= b@);
    true
}

impl Handle {
    /// The scope of this handle: its module's path followed by the predicate's name.
    pub fn scope(&self) -> (r: &Scope)
        ensures
            r@ == self@.scope,
    {
        &self.scope
    }

    /// The arity of this handle.
    pub fn arity(&self) -> (r: &[Arity])
        ensures
            r@ == self@.arity,
    {
        self.arity.as_slice()
    }

    /// The module in which the predicate is defined.
    pub fn module(&self) -> (r: Scope)
        requires
            self@.named(),
        ensures
            r@ == (ScopeView { lib: self@.scope.lib, path: self@.scope.path.drop_last() }),
    {
        self.scope.drop()
    }

    /// The name of the predicate.
    pub fn name(&self) -> (r: Atom)
        requires
            self@.named(),
        ensures
            r == self@.name(),
    {
        self.scope.head()
    }

    /// The same predicate, as seen from the root of the program: a handle with the same
    /// name and arity, in the root module.
    pub fn head(&self) -> (r: Handle)
        requires
            self@.named(),
        ensures
            r@ == (HandleView {
                scope: ScopeView { lib: None, path: seq![self@.name()] },
                arity: self@.arity,
            }),
    {
        let scope = Scope::root().join(self.scope.head());
        let r = Handle { scope, arity: copy_arities(self.arity.as_slice()) };
        assert(r@.scope.path =~= seq![self@.name()]);
        r
    }

    /// Whether two handles have the same name and arity, whatever their modules.
    pub fn like(&self, other: &Handle) -> (r: bool)
        requires
            self@.named(),
            other@.named(),
        ensures
            r == self@.like(other@),
    {
        self.scope.head() == other.scope.head() && arities_equal(
            self.arity.as_slice(),
            other.arity.as_slice(),
        )
    }

    /// A handle with the given scope and arity; an empty arity stands for no arguments,
    /// written `/0`.
    pub fn from_parts(scope: Scope, arity: Vec<Arity>) -> (r: Handle)
        ensures
            r@.scope == scope@,
            arity@.len() == 0 ==> r@.arity == seq![Arity::Len(0)],
            arity@.len() > 0 ==> r@.arity == arity@,
    {
        let mut arity = arity;
        if arity.len() == 0 {
            arity.push(Arity::Len(0));
            assert(arity@ =~= seq![Arity::Len(0)]);
        }
        Handle { scope, arity }
    }

    /// The handle of a binary operator defined at `scope`: three unnamed arguments, the two
    /// operands and the result.
    pub fn binop(scope: Scope) -> (r: Handle)
        ensures
            r@.scope == scope@,
            r@.arity == seq![Arity::Len(3)],
    {
        let mut arity: Vec<Arity> = Vec::new();
        arity.push(Arity::Len(3));
        Self::from_parts(scope, arity)
    }

    /// The handle of the predicate named `name`, with arity `arity`, inside the module
    /// `scope`.
    pub fn new_in_scope(scope: Scope, name: Atom, arity: Vec<Arity>) -> (r: Handle)
        ensures
            r@ == (HandleView {
                scope: ScopeView { lib: scope@.lib, path: scope@.path.push(name) },
                arity: arity@,
            }),
    {
        let mut scope = scope;
        scope.push(name);
        Handle { scope, arity }
    }

    /// Extends the arity with one more part; see [`extended_arity`].
    pub fn extend_arity(&mut self, arity: Arity)
        requires
            (arity is Len && old(self)@.arity.len() > 0 && old(self)@.arity.last() is Len) ==> old(self)@.arity.last()->Len_0 + arity->Len_0 <= u64::MAX,
        ensures
            final(self)@ == (HandleView {
                scope: old(self)@.scope,
                arity: extended_arity(old(self)@.arity, arity),
            }),
    {
        match arity {
            Arity::Name(..) => self.arity.push(arity),
            Arity::Len(len) => {
                let n = self.arity.len();
                if n > 0 {
                    match self.arity[n - 1] {
                        Arity::Len(prev) => {
                            self.arity.set(n - 1, Arity::Len(prev + len));
                        },
                        Arity::Name(..) => self.arity.push(arity),
                    }
                } else {
                    self.arity.push(arity);
                }
            },
        }
    }

    /// A copy of this handle.
    pub fn copy(&self) -> (r: Handle)
        ensures
            r@ == self@,
    {
        Handle { scope: self.scope.copy(), arity: copy_arities(self.arity.as_slice()) }
    }

    /// Whether two handles are the same handle.
    pub fn same(&self, other: &Handle) -> (r: bool)
        ensures
            r == (self@ == other@),
    {
        let r = self.scope.same(&other.scope) && arities_equal(
            self.arity.as_slice(),
            other.arity.as_slice(),
        );
        proof {
            if r {
                assert(self@ =~= other@);
            }
        }
        r
    }
}

/// `like` is an equivalence relation on named handles: reflexive, symmetric and
/// transitive.
pub proof fn lemma_like_equivalence(a: HandleView, b: HandleView, c: HandleView)
    ensures
        a.like(a),
        a.like(b) ==> b.like(a),
        a.like(b) && b.like(c) ==> a.like(c),
{
}

/// A handle is like its head, and the head lives in the root module of the program.
pub proof fn lemma_head_like(h: HandleView)
    requires
        h.named(),
    ensures
        (HandleView { scope: ScopeView { lib: None, path: seq![h.name()] }, arity: h.arity }).like(h),
        (HandleView { scope: ScopeView { lib: None, path: seq![h.name()] }, arity: h.arity }).named(),
{
}

/// The module of a handle made by `new_in_scope` is the scope it was made in, and its
/// name is the given atom.
pub proof fn lemma_new_in_scope_module(scope: ScopeView, name: Atom, arity: Seq<Arity>)
    ensures
        ({
            let h = HandleView { scope: ScopeView { lib: scope.lib, path: scope.path.push(name) }, arity: arity };
            &&& h.named()
            &&& h.name() == name
            &&& (ScopeView { lib: h.scope.lib, path: h.scope.path.drop_last() }) == scope
        }),
{
    assert(scope.path.push(name).drop_last() =~= scope.path);
}

} // verus!

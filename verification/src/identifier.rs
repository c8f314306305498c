//! Identifiers of variables.
use vstd::prelude::*;

verus! {

/// What an identifier stands for.
#[derive(Clone, Copy, PartialEq, Eq, Structural, Hash, Debug)]
pub enum IdentifierKind {
    /// A variable written with a name in the program.
    Named,
    /// A wildcard written in the program (`_` or a name starting with `_`).
    Wildcard,
    /// A variable made up during evaluation, which has no name in the program.
    Fresh,
}

/// A unique identifier for a variable.
///
/// Note that the name of the variable is stored elsewhere (in the compiling
/// [`Context`](crate::context::Context), indexed by [`Identifier::index`]), as it is not
/// relevant to the computation but is useful in output and debugging. Identifiers made up
/// during evaluation are numbered separately, by the binding that makes them.
#[derive(Clone, Copy, PartialEq, Eq, Structural, Hash, Debug)]
pub struct Identifier {
    index: usize,
    kind: IdentifierKind,
}

/// The rank of a kind of identifier in the order of identifiers.
pub open spec fn kind_rank(kind: IdentifierKind) -> int {
    match kind {
        IdentifierKind::Named => 0,
        IdentifierKind::Wildcard => 1,
        IdentifierKind::Fresh => 2,
    }
}

impl Identifier {
    /// The index of this identifier.
    pub closed spec fn spec_index(self) -> usize {
        self.index
    }

    /// What this identifier stands for.
    pub closed spec fn spec_kind(self) -> IdentifierKind {
        self.kind
    }

    /// Identifiers are determined by their index and kind.
    pub proof fn lemma_identifier_parts(a: Identifier, b: Identifier)
        ensures
            (a == b) <==> (a.spec_index() == b.spec_index() && a.spec_kind() == b.spec_kind()),
    {
    }

    /// The identifier of the made-up variable numbered `index`.
    pub closed spec fn spec_fresh(index: nat) -> Identifier {
        Identifier { index: index as usize, kind: IdentifierKind::Fresh }
    }

    /// A made-up identifier has the kind `Fresh` and the given number.
    pub proof fn lemma_spec_fresh(index: nat)
        requires
            index <= usize::MAX,
        ensures
            Identifier::spec_fresh(index).spec_index() == index,
            Identifier::spec_fresh(index).spec_kind() == IdentifierKind::Fresh,
    {
    }

    /// The strict order of identifiers: by index, then by kind.
    pub open spec fn spec_lt(self, other: Identifier) -> bool {
        self.spec_index() < other.spec_index() || (self.spec_index() == other.spec_index()
            && kind_rank(self.spec_kind()) < kind_rank(other.spec_kind()))
    }

    /// The identifier of the named variable numbered `index`.
    pub fn new(index: usize) -> (r: Identifier)
        ensures
            r.spec_index() == index,
            r.spec_kind() == IdentifierKind::Named,
    {
        Identifier { index, kind: IdentifierKind::Named }
    }

    /// The identifier of the wildcard numbered `index`.
    pub fn wildcard(index: usize) -> (r: Identifier)
        ensures
            r.spec_index() == index,
            r.spec_kind() == IdentifierKind::Wildcard,
    {
        Identifier { index, kind: IdentifierKind::Wildcard }
    }

    /// The identifier of the variable numbered `index` that was made up during evaluation.
    pub fn fresh(index: usize) -> (r: Identifier)
        ensures
            r == Identifier::spec_fresh(index as nat),
            r.spec_index() == index,
            r.spec_kind() == IdentifierKind::Fresh,
    {
        Identifier { index, kind: IdentifierKind::Fresh }
    }

    /// The index of this identifier.
    pub fn index(&self) -> (r: usize)
        ensures
            r == self.spec_index(),
    {
        self.index
    }

    /// What this identifier stands for.
    pub fn kind(&self) -> (r: IdentifierKind)
        ensures
            r == self.spec_kind(),
    {
        self.kind
    }

    /// Whether this identifier is a wildcard.
    pub fn is_wildcard(&self) -> (r: bool)
        ensures
            r == (self.spec_kind() == IdentifierKind::Wildcard),
    {
        match self.kind {
            IdentifierKind::Wildcard => true,
            _ => false,
        }
    }

    /// Whether this identifier comes before `other` in the order of identifiers.
    pub fn lt(&self, other: &Identifier) -> (r: bool)
        ensures
            r == self.spec_lt(*other),
    {
        self.index < other.index || (self.index == other.index && rank(self.kind) < rank(
            other.kind,
        ))
    }
}

/// The rank of a kind of identifier in the order of identifiers.
fn rank(kind: IdentifierKind) -> (r: u8)
    ensures
        r == kind_rank(kind),
{
    match kind {
        IdentifierKind::Named => 0,
        IdentifierKind::Wildcard => 1,
        IdentifierKind::Fresh => 2,
    }
}

/// The order of identifiers is a strict total order.
pub proof fn lemma_identifier_order(a: Identifier, b: Identifier, c: Identifier)
    ensures
        !a.spec_lt(a),
        a.spec_lt(b) && b.spec_lt(c) ==> a.spec_lt(c),
        a != b ==> (a.spec_lt(b) || b.spec_lt(a)),
{
    Identifier::lemma_identifier_parts(a, b);
    if a != b && a.spec_index() == b.spec_index() {
        assert(a.spec_kind() != b.spec_kind());
        assert(kind_rank(a.spec_kind()) != kind_rank(b.spec_kind()));
    }
}


impl Identifier {
    /// The name of this identifier's variable, as recorded by the context that compiled it;
    /// see [`Context::variable_name`](crate::context::Context::variable_name).
    pub fn name<'a>(&self, context: &'a crate::context::Context) -> (r: Option<&'a str>)
        ensures
            match r {
                Some(name) => self.spec_kind() != IdentifierKind::Fresh
                    && self.spec_index() < context@.variables.len()
                    && name@ == context@.variables[self.spec_index() as int],
                None => self.spec_kind() == IdentifierKind::Fresh || self.spec_index() >= context@.variables.len(),
            },
    {
        context.variable_name(*self)
    }
}

} // verus!

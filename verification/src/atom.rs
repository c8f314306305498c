//! Atoms: meaningless, constant symbols, interned by an [`Atomizer`].
use vstd::prelude::*;

verus! {

/// A meaningless, constant symbol.
///
/// Atoms are interned: every atom made by one [`Atomizer`] from the same text is the same
/// atom, and atoms made from different texts are different atoms. An atom is the index of
/// its text in the atomizer that made it.
#[derive(Clone, Copy, PartialEq, Eq, Structural, Hash, Debug)]
pub struct Atom {
    index: usize,
}

impl Atom {
    /// The position of this atom's text in the atomizer that made it.
    pub closed spec fn spec_index(self) -> nat {
        self.index as nat
    }

    /// Atoms with the same position are the same atom.
    pub proof fn lemma_index_injective(a: Atom, b: Atom)
        ensures
            (a.spec_index() == b.spec_index()) <==> (a == b),
    {
    }

    /// The position of this atom's text in the atomizer that made it.
    pub fn index(&self) -> (r: usize)
        ensures
            r == self.spec_index(),
    {
        self.index
    }
}

/// Whether `c` is one of the delimiters that mark a quoted atom.
pub open spec fn is_quote_delimiter(c: char) -> bool {
    c == '#' || c == '\''
}

/// Whether the source text of an atom is written in quoted form.
pub open spec fn is_quoted_source(source: Seq<char>) -> bool {
    source.len() > 0 && is_quote_delimiter(source[0])
}

/// The text with every leading `#` removed.
pub open spec fn trim_leading_hashes(s: Seq<char>) -> Seq<char>
    decreases s.len(),
{
    if s.len() > 0 && s[0] == '#' {
        trim_leading_hashes(s.drop_first())
    } else {
        s
    }
}

/// The text with every trailing `#` removed.
pub open spec fn trim_trailing_hashes(s: Seq<char>) -> Seq<char>
    decreases s.len(),
{
    if s.len() > 0 && s.last() == '#' {
        trim_trailing_hashes(s.drop_last())
    } else {
        s
    }
}

/// The text with every leading and trailing `#` removed.
pub open spec fn trim_hashes(s: Seq<char>) -> Seq<char> {
    trim_trailing_hashes(trim_leading_hashes(s))
}

/// Whether the source text of an atom can be turned into the atom's name: a quoted atom
/// must keep its two quotes once its `#`s are trimmed.
pub open spec fn well_formed_atom_source(source: Seq<char>) -> bool {
    is_quoted_source(source) ==> trim_hashes(source).len() >= 2
}

/// The name of the atom written as `source`: a bare atom is its own name; a quoted atom
/// (such as `'hello world'` or `##'a '# b'##`) is its text with the surrounding `#`s and
/// the quotes removed.
pub open spec fn atom_name_of_source(source: Seq<char>) -> Seq<char> {
    if is_quoted_source(source) {
        let trimmed = trim_hashes(source);
        trimmed.subrange(1, trimmed.len() - 1)
    } else {
        source
    }
}

/// Whether no text occurs twice in `names`.
pub open spec fn distinct_names(names: Seq<Seq<char>>) -> bool {
    forall|i: int, j: int| 0 <= i < names.len() && 0 <= j < names.len() && i != j
        ==> #[trigger] names[i] != #[trigger] names[j]
}

/// Interns the names of atoms, so that equal names share a single atom.
#[derive(Debug)]
pub struct Atomizer {
    names: Vec<String>,
}

impl View for Atomizer {
    type V = Seq<Seq<char>>;

    /// The texts of the atoms made so far, in the order in which they were first made.
    closed spec fn view(&self) -> Seq<Seq<char>> {
        Seq::new(self.names@.len(), |i: int| self.names@[i]@)
    }
}

impl Atomizer {
    /// No text is interned twice.
    pub open spec fn wf(&self) -> bool {
        distinct_names(self@)
    }

    /// Whether `atom` was made by this atomizer.
    pub open spec fn contains(&self, atom: Atom) -> bool {
        atom.spec_index() < self@.len()
    }

    /// The text of an atom made by this atomizer.
    pub open spec fn name_of(&self, atom: Atom) -> Seq<char> {
        self@[atom.spec_index() as int]
    }

    /// An atomizer that has made no atoms.
    pub fn new() -> (r: Atomizer)
        ensures
            r.wf(),
            r@ == Seq::<Seq<char>>::empty(),
    {
        let r = Atomizer { names: Vec::new() };
        assert(r@ =~= Seq::<Seq<char>>::empty());
        r
    }

    /// The number of distinct atoms made so far.
    pub fn len(&self) -> (r: usize)
        ensures
            r == self@.len(),
    {
        self.names.len()
    }

    /// Finds the atom whose text is `name`, if one has been made.
    pub fn find(&self, name: &str) -> (r: Option<Atom>)
        requires
            self.wf(),
        ensures
            match r {
                Some(atom) => self.contains(atom) && self.name_of(atom) == name@,
                None => forall|i: int| 0 <= i < self@.len() ==> #[trigger] self@[i] != name@,
            },
    {
        let mut i: usize = 0;
        while i < self.names.len()
            invariant
                0 <= i <= self.names@.len(),
                forall|j: int| 0 <= j < i ==> #[trigger] self@[j] != name@,
            decreases self.names@.len() - i,
        {
            let candidate: &str = self.names[i].as_str();
            if str_equal(candidate, name) {
                return Some(Atom { index: i });
            }
            i = i + 1;
        }
        None
    }

    /// Interns `name`, returning the atom that stands for it.
    ///
    /// If an atom with this text was made before, that same atom is returned and nothing
    /// changes; otherwise a new atom is made for it.
    pub fn atomize_str(&mut self, name: &str) -> (r: Atom)
        requires
            old(self).wf(),
        ensures
            final(self).wf(),
            final(self).contains(r),
            final(self).name_of(r) == name@,
            old(self)@.contains(name@) ==> final(self)@ == old(self)@,
            !old(self)@.contains(name@) ==> final(self)@ == old(self)@.push(name@),
    {
        match self.find(name) {
            Some(atom) => {
                proof {
                    assert(self@[atom.spec_index() as int] == name@);
                }
                atom
            },
            None => {
                let ghost before = self@;
                let index = self.names.len();
                self.names.push(String::from_str(name));
                proof {
                    assert(self@ =~= before.push(name@));
                    assert(!before.contains(name@)) by {
                        if before.contains(name@) {
                            let k = choose|k: int| 0 <= k < before.len() && before[k] == name@;
                            assert(before[k] != name@);
                        }
                    }
                    assert forall|i: int, j: int|
                        0 <= i < self@.len() && 0 <= j < self@.len() && i != j implies
                        #[trigger] self@[i] != #[trigger] self@[j] by {
                        if i < before.len() && j < before.len() {
                            assert(before[i] != before[j]);
                        }
                    }
                }
                Atom { index }
            },
        }
    }

    /// Interns the atom written as `source` in a Lumber program, which is either a bare
    /// atom or a quoted one; see [`atom_name_of_source`].
    pub fn atomize(&mut self, source: &str) -> (r: Atom)
        requires
            old(self).wf(),
            well_formed_atom_source(source@),
        ensures
            final(self).wf(),
            final(self).contains(r),
            final(self).name_of(r) == atom_name_of_source(source@),
            old(self)@.contains(atom_name_of_source(source@)) ==> final(self)@ == old(self)@,
            !old(self)@.contains(atom_name_of_source(source@)) ==> final(self)@ == old(
                self,
            )@.push(atom_name_of_source(source@)),
    {
        let name = atom_source_name(source);
        self.atomize_str(name.as_str())
    }

    /// The text of an atom made by this atomizer.
    pub fn name(&self, atom: Atom) -> (r: &str)
        requires
            self.contains(atom),
        ensures
            r@ == self.name_of(atom),
    {
        self.names[atom.index].as_str()
    }
}

/// Atoms of one well-formed atomizer are equal exactly when their texts are equal.
pub proof fn lemma_atoms_equal_iff_names_equal(atomizer: &Atomizer, a: Atom, b: Atom)
    requires
        atomizer.wf(),
        atomizer.contains(a),
        atomizer.contains(b),
    ensures
        (a == b) <==> (atomizer.name_of(a) == atomizer.name_of(b)),
{
    if a != b {
        assert(a.spec_index() != b.spec_index());
        assert(atomizer@[a.spec_index() as int] != atomizer@[b.spec_index() as int]);
    }
}

/// Interning the same text twice gives the same atom and leaves the atomizer as the first
/// call left it.
pub proof fn lemma_atomize_twice(before: &Atomizer, middle: &Atomizer, after: &Atomizer, first: Atom, second: Atom, name: Seq<char>)
    requires
        before.wf(),
        middle.wf(),
        middle.contains(first),
        middle.name_of(first) == name,
        before@.contains(name) ==> middle@ == before@,
        !before@.contains(name) ==> middle@ == before@.push(name),
        after.contains(second),
        after.name_of(second) == name,
        middle@.contains(name) ==> after@ == middle@,
        after.wf(),
    ensures
        first == second,
        after@ == middle@,
{
    assert(middle@[first.spec_index() as int] == name);
    assert(middle@.contains(name));
    lemma_atoms_equal_iff_names_equal(after, first, second);
}

/// Compares two strings character by character.
pub(crate) fn str_equal(a: &str, b: &str) -> (r: bool)
    ensures
        r == (a@ == b@),
{
    let n = a.unicode_len();
    let m = b.unicode_len();
    if n != m {
        return false;
    }
    let mut i: usize = 0;
    while i < n
        invariant
            n == a@.len(),
            m == b@.len(),
            n == m,
            0 <= i <= n,
            forall|j: int| 0 <= j < i ==> a@[j] == b@[j],
        decreases n - i,
    {
        if a.get_char(i) != b.get_char(i) {
            return false;
        }
        i = i + 1;
    }
    assert(a@ =~= b@);
    true
}

/// The name of the atom whose source text is `source`; see [`atom_name_of_source`].
pub fn atom_source_name(source: &str) -> (r: String)
    requires
        well_formed_atom_source(source@),
    ensures
        r@ == atom_name_of_source(source@),
{
    let len = source.unicode_len();
    if len == 0 {
        return String::from_str(source);
    }
    let first = source.get_char(0);
    if first != '#' && first != '\'' {
        return String::from_str(source);
    }
    let mut start: usize = 0;
    proof {
        assert(source@.subrange(0, len as int) =~= source@);
    }
    while start < len && source.get_char(start) == '#'
        invariant
            len == source@.len(),
            0 <= start <= len,
            trim_leading_hashes(source@) == trim_leading_hashes(source@.subrange(start as int, len as int)),
        decreases len - start,
    {
        proof {
            assert(source@.subrange(start as int, len as int).drop_first() =~= source@.subrange(start + 1, len as int));
        }
        start = start + 1;
    }
    proof {
        assert(trim_leading_hashes(source@.subrange(start as int, len as int)) == source@.subrange(start as int, len as int));
    }
    let mut end: usize = len;
    while end > start && source.get_char(end - 1) == '#'
        invariant
            len == source@.len(),
            0 <= start <= end <= len,
            trim_hashes(source@) == trim_trailing_hashes(source@.subrange(start as int, end as int)),
        decreases end,
    {
        proof {
            assert(source@.subrange(start as int, end as int).drop_last() =~= source@.subrange(start as int, end - 1));
        }
        end = end - 1;
    }
    proof {
        assert(trim_trailing_hashes(source@.subrange(start as int, end as int)) == source@.subrange(start as int, end as int));
    }
    let inner = source.substring_char(start + 1, end - 1);
    proof {
        assert(inner@ =~= source@.subrange(start as int, end as int).subrange(1, (end - start) - 1));
    }
    String::from_str(inner)
}

} // verus!

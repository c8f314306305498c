//! Module headers: what a module declares, exports and imports, before any definition is
//! bound to it.
use crate::handle::{Handle, HandleView};
use crate::handle_set::{
    handle_views, scope_views, pair_views, set_insert, map_keys, map_targets, unique_map, map_get, map_insert,
    handle_set_replace, scope_set_replace, find_key, lemma_set_insert_no_duplicates, lemma_map_insert,
    lemma_unique_index_of,
};
use crate::scope::{Scope, ScopeView};
use vstd::prelude::*;

verus! {

/// The mathematical value of a [`ModuleHeader`].
pub ghost struct ModuleHeaderView {
    /// The path to this module.
    pub scope: ScopeView,
    /// Modules from which imports are globbed.
    pub globs: Seq<ScopeView>,
    /// Native functions bound to this module.
    pub natives: Seq<HandleView>,
    /// Publicly available predicates.
    pub exports: Seq<HandleView>,
    /// Predicates that are modifiable at runtime.
    pub mutables: Seq<HandleView>,
    /// Predicates which are not completely defined in this module.
    pub incompletes: Seq<HandleView>,
    /// All (private and public) predicates.
    pub definitions: Seq<HandleView>,
    /// Imported predicates: each alias and the handle it stands for.
    pub aliases: Seq<(HandleView, HandleView)>,
}

/// Whether every handle of `s` names a predicate.
pub open spec fn all_named(s: Seq<HandleView>) -> bool {
    forall|i: int| 0 <= i < s.len() ==> (#[trigger] s[i]).named()
}

impl ModuleHeaderView {
    /// Each set holds each member once, each alias stands for one handle, and every handle
    /// names a predicate.
    pub open spec fn wf(self) -> bool {
        &&& self.globs.no_duplicates()
        &&& self.natives.no_duplicates()
        &&& self.exports.no_duplicates()
        &&& self.mutables.no_duplicates()
        &&& self.incompletes.no_duplicates()
        &&& self.definitions.no_duplicates()
        &&& unique_map(self.aliases)
        &&& all_named(self.natives)
        &&& all_named(self.exports)
        &&& all_named(self.mutables)
        &&& all_named(self.incompletes)
        &&& all_named(self.definitions)
        &&& all_named(map_keys(self.aliases))
        &&& all_named(map_targets(self.aliases))
    }

    /// The handle that `alias` stands for, if it is an alias.
    pub open spec fn alias_of(self, alias: HandleView) -> Option<HandleView> {
        map_get(self.aliases, alias)
    }
}

/// The header of a module at `scope` that declares nothing yet.
pub open spec fn empty_header(scope: ScopeView) -> ModuleHeaderView {
    ModuleHeaderView {
        scope: scope,
        globs: Seq::empty(),
        natives: Seq::empty(),
        exports: Seq::empty(),
        mutables: Seq::empty(),
        incompletes: Seq::empty(),
        definitions: Seq::empty(),
        aliases: Seq::empty(),
    }
}

/// Lists the predicates and exports of a module, but does not bind them to any actual
/// definitions.
#[derive(Debug)]
pub struct ModuleHeader {
    scope: Scope,
    globs: Vec<Scope>,
    natives: Vec<Handle>,
    exports: Vec<Handle>,
    mutables: Vec<Handle>,
    incompletes: Vec<Handle>,
    definitions: Vec<Handle>,
    aliases: Vec<(Handle, Handle)>,
}

impl View for ModuleHeader {
    type V = ModuleHeaderView;

    closed spec fn view(&self) -> ModuleHeaderView {
        ModuleHeaderView {
            scope: self.scope@,
            globs: scope_views(self.globs@),
            natives: handle_views(self.natives@),
            exports: handle_views(self.exports@),
            mutables: handle_views(self.mutables@),
            incompletes: handle_views(self.incompletes@),
            definitions: handle_views(self.definitions@),
            aliases: pair_views(self.aliases@),
        }
    }
}

/// Adding a named handle keeps every handle of a set named.
proof fn lemma_all_named_insert(s: Seq<HandleView>, h: HandleView)
    requires
        all_named(s),
        h.named(),
    ensures
        all_named(set_insert(s, h)),
{
    if !s.contains(h) {
        assert forall|i: int| 0 <= i < s.push(h).len() implies (#[trigger] s.push(h)[i]).named() by {
            if i < s.len() {
                assert(s.push(h)[i] == s[i]);
            }
        }
    }
}

impl ModuleHeader {
    /// The header of a module at `scope` that declares nothing yet.
    pub fn new(scope: Scope) -> (r: ModuleHeader)
        ensures
            r@ == empty_header(scope@),
            r@.wf(),
    {
        let r = ModuleHeader {
            scope,
            globs: Vec::new(),
            natives: Vec::new(),
            exports: Vec::new(),
            mutables: Vec::new(),
            incompletes: Vec::new(),
            definitions: Vec::new(),
            aliases: Vec::new(),
        };
        proof {
            assert(r@.globs =~= Seq::<ScopeView>::empty());
            assert(r@.natives =~= Seq::<HandleView>::empty());
            assert(r@.exports =~= Seq::<HandleView>::empty());
            assert(r@.mutables =~= Seq::<HandleView>::empty());
            assert(r@.incompletes =~= Seq::<HandleView>::empty());
            assert(r@.definitions =~= Seq::<HandleView>::empty());
            assert(r@.aliases =~= Seq::<(HandleView, HandleView)>::empty());
            assert(map_keys(r@.aliases) =~= Seq::<HandleView>::empty());
            assert(map_targets(r@.aliases) =~= Seq::<HandleView>::empty());
        }
        r
    }

    /// The path to this module.
    pub fn scope(&self) -> (r: &Scope)
        ensures
            r@ == self@.scope,
    {
        &self.scope
    }

    /// The modules from which imports are globbed.
    pub fn globbed_modules(&self) -> (r: &Vec<Scope>)
        ensures
            scope_views(r@) == self@.globs,
    {
        &self.globs
    }

    /// The native functions bound to this module.
    pub fn natives(&self) -> (r: &Vec<Handle>)
        ensures
            handle_views(r@) == self@.natives,
    {
        &self.natives
    }

    /// The predicates this module exports.
    pub fn exports(&self) -> (r: &Vec<Handle>)
        ensures
            handle_views(r@) == self@.exports,
    {
        &self.exports
    }

    /// The predicates that may be modified at runtime.
    pub fn mutables(&self) -> (r: &Vec<Handle>)
        ensures
            handle_views(r@) == self@.mutables,
    {
        &self.mutables
    }

    /// The predicates not completely defined in this module.
    pub fn incompletes(&self) -> (r: &Vec<Handle>)
        ensures
            handle_views(r@) == self@.incompletes,
    {
        &self.incompletes
    }

    /// All the predicates this module defines.
    pub fn definitions(&self) -> (r: &Vec<Handle>)
        ensures
            handle_views(r@) == self@.definitions,
    {
        &self.definitions
    }

    /// The imported predicates: each alias and the handle it stands for.
    pub fn aliases(&self) -> (r: &Vec<(Handle, Handle)>)
        ensures
            pair_views(r@) == self@.aliases,
    {
        &self.aliases
    }

    /// Imports everything that `module` exports. Gives back the module when it was already
    /// imported this way.
    pub fn insert_glob(&mut self, module: Scope) -> (r: Option<Scope>)
        requires
            old(self)@.wf(),
        ensures
            final(self)@ == (ModuleHeaderView { globs: set_insert(old(self)@.globs, module@), ..old(self)@ }),
            final(self)@.wf(),
            r is Some <==> old(self)@.globs.contains(module@),
            r matches Some(m) ==> m@ == module@,
    {
        proof {
            lemma_set_insert_no_duplicates(self@.globs, module@);
        }
        scope_set_replace(&mut self.globs, module)
    }

    /// Exports `handle`. Gives back the handle when it was already exported.
    pub fn insert_public(&mut self, handle: Handle) -> (r: Option<Handle>)
        requires
            old(self)@.wf(),
            handle@.named(),
        ensures
            final(self)@ == (ModuleHeaderView { exports: set_insert(old(self)@.exports, handle@), ..old(self)@ }),
            final(self)@.wf(),
            r is Some <==> old(self)@.exports.contains(handle@),
            r matches Some(h) ==> h@ == handle@,
    {
        proof {
            lemma_set_insert_no_duplicates(self@.exports, handle@);
            lemma_all_named_insert(self@.exports, handle@);
        }
        handle_set_replace(&mut self.exports, handle)
    }

    /// Declares `handle` as a native function. Gives back the handle when it was already
    /// declared so.
    pub fn insert_native(&mut self, handle: Handle) -> (r: Option<Handle>)
        requires
            old(self)@.wf(),
            handle@.named(),
        ensures
            final(self)@ == (ModuleHeaderView { natives: set_insert(old(self)@.natives, handle@), ..old(self)@ }),
            final(self)@.wf(),
            r is Some <==> old(self)@.natives.contains(handle@),
            r matches Some(h) ==> h@ == handle@,
    {
        proof {
            lemma_set_insert_no_duplicates(self@.natives, handle@);
            lemma_all_named_insert(self@.natives, handle@);
        }
        handle_set_replace(&mut self.natives, handle)
    }

    /// Declares `handle` as a predicate of this module that may be modified at runtime.
    /// Gives back the handle when it was already declared mutable.
    pub fn insert_mutable(&mut self, handle: Handle) -> (r: Option<Handle>)
        requires
            old(self)@.wf(),
            handle@.named(),
        ensures
            final(self)@ == (ModuleHeaderView {
                definitions: set_insert(old(self)@.definitions, handle@),
                mutables: set_insert(old(self)@.mutables, handle@),
                ..old(self)@
            }),
            final(self)@.wf(),
            r is Some <==> old(self)@.mutables.contains(handle@),
            r matches Some(h) ==> h@ == handle@,
    {
        proof {
            lemma_set_insert_no_duplicates(self@.definitions, handle@);
            lemma_all_named_insert(self@.definitions, handle@);
            lemma_set_insert_no_duplicates(self@.mutables, handle@);
            lemma_all_named_insert(self@.mutables, handle@);
        }
        handle_set_replace(&mut self.definitions, handle.copy());
        handle_set_replace(&mut self.mutables, handle)
    }

    /// Declares `handle` as a predicate of this module which other modules may complete; it
    /// is exported too. Gives back the handle as it was already exported, and as it was
    /// already declared incomplete.
    pub fn insert_incomplete(&mut self, handle: Handle) -> (r: (Option<Handle>, Option<Handle>))
        requires
            old(self)@.wf(),
            handle@.named(),
        ensures
            final(self)@ == (ModuleHeaderView {
                definitions: set_insert(old(self)@.definitions, handle@),
                exports: set_insert(old(self)@.exports, handle@),
                incompletes: set_insert(old(self)@.incompletes, handle@),
                ..old(self)@
            }),
            final(self)@.wf(),
            r.0 is Some <==> old(self)@.exports.contains(handle@),
            r.0 matches Some(h) ==> h@ == handle@,
            r.1 is Some <==> old(self)@.incompletes.contains(handle@),
            r.1 matches Some(h) ==> h@ == handle@,
    {
        proof {
            lemma_set_insert_no_duplicates(self@.definitions, handle@);
            lemma_all_named_insert(self@.definitions, handle@);
            lemma_set_insert_no_duplicates(self@.exports, handle@);
            lemma_all_named_insert(self@.exports, handle@);
            lemma_set_insert_no_duplicates(self@.incompletes, handle@);
            lemma_all_named_insert(self@.incompletes, handle@);
        }
        handle_set_replace(&mut self.definitions, handle.copy());
        let exported = handle_set_replace(&mut self.exports, handle.copy());
        let incomplete = handle_set_replace(&mut self.incompletes, handle);
        (exported, incomplete)
    }

    /// Declares `handle` as a predicate defined in this module.
    pub fn insert(&mut self, handle: Handle)
        requires
            old(self)@.wf(),
            handle@.named(),
        ensures
            final(self)@ == (ModuleHeaderView { definitions: set_insert(old(self)@.definitions, handle@), ..old(self)@ }),
            final(self)@.wf(),
    {
        proof {
            lemma_set_insert_no_duplicates(self@.definitions, handle@);
            lemma_all_named_insert(self@.definitions, handle@);
        }
        handle_set_replace(&mut self.definitions, handle);
    }

    /// Imports `source` under the name `alias`. When `alias` already stood for a handle, it
    /// now stands for `source`, and the alias and the handle it stood for are given back.
    pub fn insert_alias(&mut self, alias: Handle, source: Handle) -> (r: Option<(Handle, Handle)>)
        requires
            old(self)@.wf(),
            alias@.named(),
            source@.named(),
        ensures
            final(self)@ == (ModuleHeaderView { aliases: map_insert(old(self)@.aliases, alias@, source@), ..old(self)@ }),
            final(self)@.wf(),
            r is Some <==> old(self)@.alias_of(alias@) is Some,
            r matches Some((a, s)) ==> a@ == alias@ && Some(s@) == old(self)@.alias_of(alias@),
    {
        let ghost before = self@.aliases;
        proof {
            lemma_map_insert(before, alias@, source@);
        }
        match find_key(&self.aliases, &alias) {
            Some(i) => {
                let previous = self.aliases[i].1.copy();
                let ghost old_aliases = self.aliases@;
                proof {
                    assert(map_keys(before)[i as int] == alias@);
                    lemma_unique_index_of(map_keys(before), i as int);
                }
                self.aliases.set(i, (alias.copy(), source));
                proof {
                    assert(pair_views(self.aliases@) =~= before.update(i as int, (alias@, source@)));
                    self.lemma_alias_values_named(before, alias@, source@);
                }
                Some((alias, previous))
            },
            None => {
                self.aliases.push((alias, source));
                proof {
                    assert(pair_views(self.aliases@) =~= before.push((alias@, source@)));
                    self.lemma_alias_values_named(before, alias@, source@);
                }
                None
            },
        }
    }

    proof fn lemma_alias_values_named(&self, before: Seq<(HandleView, HandleView)>, alias: HandleView, source: HandleView)
        requires
            all_named(map_targets(before)),
            all_named(map_keys(before)),
            unique_map(before),
            alias.named(),
            source.named(),
            self@.aliases == map_insert(before, alias, source),
        ensures
            all_named(map_targets(self@.aliases)),
            all_named(map_keys(self@.aliases)),
    {
        lemma_map_insert(before, alias, source);
        let after = self@.aliases;
        assert forall|i: int| 0 <= i < after.len() implies (#[trigger] map_targets(after)[i]).named() by {
            if i < before.len() && after[i] == before[i] {
                assert(map_targets(before)[i] == before[i].1);
            }
        }
        assert forall|i: int| 0 <= i < after.len() implies (#[trigger] map_keys(after)[i]).named() by {
            if i < before.len() && after[i] == before[i] {
                assert(map_keys(before)[i] == before[i].0);
            }
        }
    }
}

} // verus!

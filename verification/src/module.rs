//! Compiling a module: its directives declare what the module exports, imports, defines
//! and leaves to the host, and its clauses are gathered by the predicate they define.
use crate::atom::Atom;
use crate::context::{Alias, Context, ContextErrorView, ContextView, alias_pairs};
use crate::evaluate::Clause;
use crate::handle::{Handle, HandleView};
use crate::module_header::empty_header;
use crate::scope::{Scope, ScopeView};
use vstd::prelude::*;

verus! {

/// An item of a module, as its source writes it.
#[derive(Debug)]
pub enum ModuleItem {
    /// `:- mod(name).`: a submodule, whose own items the host reads and compiles inside it.
    Mod(Atom),
    /// `:- pub(handle).`: an export.
    Pub(Handle),
    /// `:- use(...).`: imports, each an alias, or everything that a module exports.
    Use(Result<Vec<Alias>, Scope>),
    /// `:- mut(handle).`: a predicate whose rules may change while the program runs.
    Mut(Handle),
    /// `:- inc(handle).`: a predicate that other modules may add rules to.
    Inc(Handle),
    /// `:- nat(handle).`: a predicate that a native function of the host answers.
    Nat(Handle),
    /// A clause of the predicate `handle`.
    Clause(Handle, Clause),
}

/// Every handle that an item names is the name of a predicate, as the grammar makes it.
pub open spec fn item_named(item: ModuleItem) -> bool {
    match item {
        ModuleItem::Mod(_) => true,
        ModuleItem::Use(Ok(v)) => forall|i: int| 0 <= i < v@.len() ==> (#[trigger] v@[i]).output@.named() && v@[i].input@.named(),
        ModuleItem::Use(Err(_)) => true,
        ModuleItem::Pub(h) => h@.named(),
        ModuleItem::Mut(h) => h@.named(),
        ModuleItem::Inc(h) => h@.named(),
        ModuleItem::Nat(h) => h@.named(),
        ModuleItem::Clause(h, _) => h@.named(),
    }
}

/// The scope of the submodule `name` of the module being compiled in `c`.
pub open spec fn submodule_scope(c: ContextView, name: Atom) -> ScopeView {
    ScopeView { lib: c.current_scope.lib, path: c.current_scope.path.push(name) }
}

/// What compiling one item does: the context after it, the clauses it gives (each with the
/// predicate it defines), and the submodules it declares. A submodule declared twice is
/// reported and not declared again.
pub open spec fn compiled_item(c: ContextView, item: ModuleItem) -> (ContextView, Seq<(HandleView, Clause)>, Seq<Atom>) {
    match item {
        ModuleItem::Mod(name) => {
            let s = submodule_scope(c, name);
            if c.has_module(s) {
                (c.report(ContextErrorView::DuplicateModule(s)), Seq::empty(), Seq::empty())
            } else {
                (ContextView { modules: c.modules.push(empty_header(s)), ..c }, Seq::empty(), seq![name])
            }
        },
        ModuleItem::Pub(h) => (c.after_export(h@), Seq::empty(), Seq::empty()),
        ModuleItem::Use(Ok(v)) => (c.after_aliases(alias_pairs(v@)), Seq::empty(), Seq::empty()),
        ModuleItem::Use(Err(s)) => (c.after_glob(s@), Seq::empty(), Seq::empty()),
        ModuleItem::Mut(h) => (c.after_mutable(h@), Seq::empty(), Seq::empty()),
        ModuleItem::Inc(h) => (c.after_incomplete(h@), Seq::empty(), Seq::empty()),
        ModuleItem::Nat(h) => (c.after_native(h@), Seq::empty(), Seq::empty()),
        ModuleItem::Clause(h, cl) => (c.after_predicate(h@), seq![(h@, cl)], Seq::empty()),
    }
}

/// What compiling the items of a module in order does; see [`compiled_item`].
pub open spec fn compiled(c: ContextView, items: Seq<ModuleItem>) -> (ContextView, Seq<(HandleView, Clause)>, Seq<Atom>)
    decreases items.len(),
{
    if items.len() == 0 {
        (c, Seq::empty(), Seq::empty())
    } else {
        let (c1, clauses1, mods1) = compiled(c, items.drop_last());
        let (c2, clauses2, mods2) = compiled_item(c1, items.last());
        (c2, clauses1 + clauses2, mods1 + mods2)
    }
}

/// The values of a sequence of clauses with their handles.
pub open spec fn clause_views(v: Seq<(Handle, Clause)>) -> Seq<(HandleView, Clause)> {
    v.map_values(|p: (Handle, Clause)| (p.0@, p.1))
}

/// Declaring imports stays in the module being compiled.
proof fn lemma_aliases_keep_scope(c: ContextView, aliases: Seq<(HandleView, HandleView)>)
    ensures
        c.after_aliases(aliases).current_scope == c.current_scope,
    decreases aliases.len(),
{
    if aliases.len() > 0 {
        lemma_aliases_keep_scope(c, aliases.drop_last());
    }
}

/// Compiles one item of the module being compiled; see [`compiled_item`].
fn compile_item(context: &mut Context, item: ModuleItem, clauses: &mut Vec<(Handle, Clause)>, submodules: &mut Vec<Atom>)
    requires
        old(context)@.wf(),
        old(context)@.has_module(old(context)@.current_scope),
        item_named(item),
    ensures
        final(context)@ == compiled_item(old(context)@, item).0,
        clause_views(final(clauses)@) == clause_views(old(clauses)@) + compiled_item(old(context)@, item).1,
        final(submodules)@ == old(submodules)@ + compiled_item(old(context)@, item).2,
        final(context)@.wf(),
        final(context)@.has_module(final(context)@.current_scope),
        final(context)@.current_scope == old(context)@.current_scope,
{
    let ghost c = context@;
    let ghost before = clauses@;
    match item {
        ModuleItem::Mod(name) => {
            let ghost s = submodule_scope(c, name);
            if context.add_module(name) {
                context.leave_module();
                proof {
                    assert(c.current_scope.path.push(name).drop_last() =~= c.current_scope.path);
                    assert(context@.current_scope == c.current_scope);
                    let old_scopes = crate::context::module_scopes(c.modules);
                    let new_scopes = crate::context::module_scopes(context@.modules);
                    assert(new_scopes =~= old_scopes.push(s));
                    let i = choose|i: int| 0 <= i < old_scopes.len() && old_scopes[i] == c.current_scope;
                    assert(new_scopes[i] == c.current_scope);
                }
                submodules.push(name);
                proof {
                    assert(submodules@ =~= old(submodules)@ + seq![name]);
                }
            } else {
                proof {
                    assert(submodules@ =~= old(submodules)@ + Seq::<Atom>::empty());
                }
            }
        },
        ModuleItem::Pub(h) => context.declare_export(h),
        ModuleItem::Use(imports) => {
            proof {
                if imports is Ok {
                    lemma_aliases_keep_scope(c, alias_pairs(imports->Ok_0@));
                }
            }
            context.declare_use(imports);
        },
        ModuleItem::Mut(h) => context.declare_mutable(h),
        ModuleItem::Inc(h) => context.declare_incomplete(h),
        ModuleItem::Nat(h) => context.declare_native(h),
        ModuleItem::Clause(h, cl) => {
            context.declare_predicate(h.copy());
            clauses.push((h, cl));
        },
    }
    proof {
        assert(clause_views(clauses@) =~= clause_views(before) + compiled_item(c, item).1);
        assert(submodules@ =~= old(submodules)@ + compiled_item(c, item).2);
    }
}

/// Compiles the items of the module being compiled, in order: each directive is declared
/// in the context, each clause is gathered with the predicate it defines, and the
/// submodules it declares are given back for the host to read and compile inside them;
/// see [`compiled`]. The host makes each clause with the context's environment reset, as
/// the clause's variables are numbered afresh.
pub fn compile_module(context: &mut Context, items: Vec<ModuleItem>) -> (r: (Vec<(Handle, Clause)>, Vec<Atom>))
    requires
        old(context)@.wf(),
        old(context)@.has_module(old(context)@.current_scope),
        forall|i: int| 0 <= i < items@.len() ==> item_named(#[trigger] items@[i]),
    ensures
        final(context)@ == compiled(old(context)@, items@).0,
        clause_views(r.0@) == compiled(old(context)@, items@).1,
        r.1@ == compiled(old(context)@, items@).2,
        final(context)@.wf(),
        final(context)@.has_module(final(context)@.current_scope),
        final(context)@.current_scope == old(context)@.current_scope,
{
    let ghost all = items@;
    let ghost start = context@;
    let mut items = items;
    let mut clauses: Vec<(Handle, Clause)> = Vec::new();
    let mut submodules: Vec<Atom> = Vec::new();
    let mut k: usize = 0;
    let n = items.len();
    proof {
        assert(all.take(0) =~= Seq::<ModuleItem>::empty());
        assert(clause_views(clauses@) =~= Seq::<(HandleView, Clause)>::empty());
        assert(items@ =~= all.skip(0));
    }
    while k < n
        invariant
            n == all.len(),
            k <= n,
            items@ == all.skip(k as int),
            forall|i: int| 0 <= i < all.len() ==> item_named(#[trigger] all[i]),
            context@ == compiled(start, all.take(k as int)).0,
            clause_views(clauses@) == compiled(start, all.take(k as int)).1,
            submodules@ == compiled(start, all.take(k as int)).2,
            context@.wf(),
            context@.has_module(context@.current_scope),
            context@.current_scope == start.current_scope,
        decreases n - k,
    {
        proof {
            assert(items@[0] == all[k as int]);
            assert(all.take(k + 1).drop_last() =~= all.take(k as int));
            assert(all.take(k + 1).last() == all[k as int]);
        }
        let item = items.remove(0);
        compile_item(context, item, &mut clauses, &mut submodules);
        k = k + 1;
        proof {
            assert(items@ =~= all.skip(k as int));
        }
    }
    proof {
        assert(all.take(n as int) =~= all);
    }
    (clauses, submodules)
}

} // verus!

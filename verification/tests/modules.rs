use lumber::arity::Arity;
use lumber::atom::{Atom, Atomizer};
use lumber::context::{Alias, Context, ContextError};
use lumber::database::{Database, DatabaseDefinition};
use lumber::handle::Handle;
use lumber::header_errors::HeaderError;
use lumber::identifier::IdentifierKind;
use lumber::module_header::ModuleHeader;
use lumber::resolution::ResolveError;
use lumber::scope::{Scope, ScopePrefix};

fn scope(path: &[Atom]) -> Scope {
    Scope::from_parts(None, path)
}

fn handle(path: &[Atom], name: Atom, arity: u64) -> Handle {
    Handle::new_in_scope(scope(path), name, vec![Arity::Len(arity)])
}

struct Names {
    a: Atom,
    b: Atom,
    c: Atom,
    p: Atom,
    q: Atom,
}

fn names() -> Names {
    let mut atoms = Atomizer::new();
    Names {
        a: atoms.atomize_str("a"),
        b: atoms.atomize_str("b"),
        c: atoms.atomize_str("c"),
        p: atoms.atomize_str("p"),
        q: atoms.atomize_str("q"),
    }
}

#[test]
fn header_reports_repeated_declarations() {
    let n = names();
    let mut header = ModuleHeader::new(scope(&[n.a]));
    let h = handle(&[n.a], n.p, 1);
    assert!(header.insert_public(h.copy()).is_none());
    assert!(header.insert_public(h.copy()).unwrap().same(&h));
    assert_eq!(header.exports().len(), 1);
    assert!(header.insert_mutable(h.copy()).is_none());
    assert!(header.insert_mutable(h.copy()).is_some());
    assert_eq!(header.definitions().len(), 1);
    let (exported, incomplete) = header.insert_incomplete(h.copy());
    assert!(exported.is_some());
    assert!(incomplete.is_none());
    assert!(header.insert_glob(scope(&[n.b])).is_none());
    assert!(header.insert_glob(scope(&[n.b])).is_some());
    assert!(header.insert_native(h.copy()).is_none());
}

#[test]
fn header_alias_gives_back_previous_source() {
    let n = names();
    let mut header = ModuleHeader::new(scope(&[n.a]));
    let alias = handle(&[n.a], n.p, 1);
    let first = handle(&[n.b], n.p, 1);
    let second = handle(&[n.c], n.p, 1);
    assert!(header.insert_alias(alias.copy(), first.copy()).is_none());
    let (a, s) = header.insert_alias(alias.copy(), second.copy()).unwrap();
    assert!(a.same(&alias));
    assert!(s.same(&first));
    assert_eq!(header.aliases().len(), 1);
    assert!(header.aliases()[0].1.same(&second));
}

#[test]
fn resolve_own_definition() {
    let n = names();
    let mut a = ModuleHeader::new(scope(&[n.a]));
    let p = handle(&[n.a], n.p, 1);
    a.insert(p.copy());
    let modules = vec![a];
    let r = modules[0].resolve(&p, &scope(&[n.a]), &modules).unwrap();
    assert!(r.same(&p));
}

#[test]
fn resolve_through_alias() {
    let n = names();
    let mut a = ModuleHeader::new(scope(&[n.a]));
    let mut b = ModuleHeader::new(scope(&[n.b]));
    let alias = handle(&[n.a], n.p, 1);
    let source = handle(&[n.b], n.q, 1);
    a.insert_alias(alias.copy(), source.copy());
    b.insert(source.copy());
    b.insert_public(source.copy());
    let modules = vec![a, b];
    let r = modules[0].resolve(&alias, &scope(&[n.a]), &modules).unwrap();
    assert!(r.same(&source));
}

#[test]
fn resolve_through_glob() {
    let n = names();
    let mut a = ModuleHeader::new(scope(&[n.a]));
    let mut b = ModuleHeader::new(scope(&[n.b]));
    a.insert_glob(scope(&[n.b]));
    let exported = handle(&[n.b], n.p, 1);
    b.insert(exported.copy());
    b.insert_public(exported.copy());
    let modules = vec![a, b];
    let wanted = handle(&[n.a], n.p, 1);
    let r = modules[0].resolve(&wanted, &scope(&[n.a]), &modules).unwrap();
    assert!(r.same(&exported));
    let found = modules[0].resolve_like(&wanted, &scope(&[n.a]), &modules).unwrap();
    assert_eq!(found.len(), 1);
    assert!(found[0].same(&exported));
}

#[test]
fn resolve_private_predicate_from_outside() {
    let n = names();
    let mut b = ModuleHeader::new(scope(&[n.b]));
    let private = handle(&[n.b], n.p, 1);
    b.insert(private.copy());
    let modules = vec![b];
    match modules[0].resolve(&private, &scope(&[n.a]), &modules) {
        Err(ResolveError::NotVisible(h, s)) => {
            assert!(h.same(&private));
            assert!(s.same(&scope(&[n.a])));
        }
        other => panic!("unexpected result {:?}", other),
    }
    let inner = scope(&[n.b, n.c]);
    assert!(modules[0].resolve(&private, &inner, &modules).is_ok());
}

#[test]
fn resolve_ambiguous_glob() {
    let n = names();
    let mut a = ModuleHeader::new(scope(&[n.a]));
    let mut b = ModuleHeader::new(scope(&[n.b]));
    let mut c = ModuleHeader::new(scope(&[n.c]));
    a.insert_glob(scope(&[n.b]));
    a.insert_glob(scope(&[n.c]));
    let pb = handle(&[n.b], n.p, 1);
    let pc = handle(&[n.c], n.p, 1);
    b.insert(pb.copy());
    b.insert_public(pb.copy());
    c.insert(pc.copy());
    c.insert_public(pc.copy());
    let modules = vec![a, b, c];
    let wanted = handle(&[n.a], n.p, 1);
    match modules[0].resolve(&wanted, &scope(&[n.a]), &modules) {
        Err(ResolveError::Ambiguous(h, candidates)) => {
            assert!(h.same(&wanted));
            assert_eq!(candidates.len(), 2);
            assert!(candidates[0].same(&pb));
            assert!(candidates[1].same(&pc));
        }
        other => panic!("unexpected result {:?}", other),
    }
}

#[test]
fn resolve_unknown_predicate() {
    let n = names();
    let a = ModuleHeader::new(scope(&[n.a]));
    let modules = vec![a];
    let wanted = handle(&[n.a], n.p, 1);
    assert!(matches!(
        modules[0].resolve(&wanted, &scope(&[n.a]), &modules),
        Err(ResolveError::Unresolved(..))
    ));
}

#[test]
fn resolve_missing_module_and_cycle() {
    let n = names();
    let mut a = ModuleHeader::new(scope(&[n.a]));
    let alias = handle(&[n.a], n.p, 1);
    a.insert_alias(alias.copy(), handle(&[n.c], n.p, 1));
    let modules = vec![a];
    assert!(matches!(
        modules[0].resolve(&alias, &scope(&[n.a]), &modules),
        Err(ResolveError::MissingModule(..))
    ));

    let mut a = ModuleHeader::new(scope(&[n.a]));
    let mut b = ModuleHeader::new(scope(&[n.b]));
    let pa = handle(&[n.a], n.p, 1);
    let pb = handle(&[n.b], n.p, 1);
    a.insert_alias(pa.copy(), pb.copy());
    b.insert_alias(pb.copy(), pa.copy());
    let modules = vec![a, b];
    assert!(matches!(
        modules[0].resolve_with(&pa, &scope(&[n.a]), &modules, 50),
        Err(ResolveError::TooDeep)
    ));
}

#[test]
fn header_errors_report_problems() {
    let n = names();
    let mut a = ModuleHeader::new(scope(&[n.a]));
    let native = handle(&[n.a], n.p, 1);
    a.insert_native(native.copy());
    a.insert(native.copy());
    let missing = handle(&[n.a], n.q, 1);
    a.insert_public(missing.copy());
    let modules = vec![a];
    let errors = modules[0].errors(&modules, &vec![]).unwrap();
    assert_eq!(errors.len(), 3);
    assert!(matches!(&errors[0], HeaderError::NativeNotBound(h) if h.same(&native)));
    assert!(matches!(&errors[1], HeaderError::NativeImplemented(h) if h.same(&native)));
    assert!(matches!(&errors[2], HeaderError::ExportNotFound(h) if h.same(&missing.head())));
    let bound = modules[0].errors(&modules, &vec![native.copy()]).unwrap();
    assert_eq!(bound.len(), 2);
}

#[test]
fn header_errors_report_missing_glob() {
    let n = names();
    let mut a = ModuleHeader::new(scope(&[n.a]));
    a.insert_glob(scope(&[n.c]));
    let modules = vec![a];
    let errors = modules[0].errors(&modules, &vec![]).unwrap();
    assert_eq!(errors.len(), 1);
    assert!(matches!(&errors[0], HeaderError::UnresolvedGlob(s) if s.same(&scope(&[n.c]))));
}

#[test]
fn header_errors_with_glob_export_is_fatal_when_module_missing() {
    let n = names();
    let mut a = ModuleHeader::new(scope(&[n.a]));
    a.insert_public(handle(&[n.a], n.q, 1));
    a.insert_glob(scope(&[n.c]));
    let modules = vec![a];
    assert!(matches!(
        modules[0].errors(&modules, &vec![]),
        Err(ResolveError::MissingModule(..))
    ));
}

#[test]
fn header_errors_for_aliases() {
    let n = names();
    let mut a = ModuleHeader::new(scope(&[n.a]));
    let mut b = ModuleHeader::new(scope(&[n.b]));
    let source = handle(&[n.b], n.q, 1);
    b.insert(source.copy());
    b.insert_public(source.copy());
    let first = handle(&[n.a], n.p, 1);
    let second = handle(&[n.a], n.c, 1);
    a.insert_alias(first.copy(), source.copy());
    a.insert_alias(second.copy(), source.copy());
    a.insert_mutable(first.copy());
    let modules = vec![a, b];
    let errors = modules[0].errors(&modules, &vec![]).unwrap();
    assert_eq!(errors.len(), 3);
    assert!(matches!(&errors[0], HeaderError::AliasMutable(h) if h.same(&first.head())));
    assert!(matches!(&errors[1], HeaderError::DefinitionConflict(d, v, Some(x)) if d.same(&first.head()) && v.same(&source) && x.same(&first.head())));
    match &errors[2] {
        HeaderError::AliasedMultiple(h, keys) => {
            assert!(h.same(&source));
            assert_eq!(keys.len(), 2);
        }
        other => panic!("unexpected error {:?}", other),
    }
}

#[test]
fn context_variables() {
    let mut context = Context::new();
    let x = context.get_variable("X");
    let y = context.get_variable("Y");
    let x2 = context.get_variable("X");
    assert_eq!(x, x2);
    assert_ne!(x, y);
    assert_eq!(x.index(), 0);
    assert_eq!(y.index(), 1);
    assert_eq!(x.kind(), IdentifierKind::Named);
    context.reset_environment();
    let x3 = context.get_variable("X");
    assert_eq!(x3.index(), 2);
    let fresh = context.fresh_variable();
    assert_eq!(fresh.index(), 3);
    assert_eq!(context.variable_name(fresh), Some("#3"));
    assert_eq!(x3.name(&context), Some("X"));
}

#[test]
fn context_reports_duplicates() {
    let mut context = Context::new();
    let p = context.atomize("p");
    let m = context.atomize("m");
    let h = Handle::new_in_scope(Scope::root(), p, vec![Arity::Len(1)]);
    context.declare_export(h.copy());
    assert!(context.is_ok());
    context.declare_export(h.copy());
    assert_eq!(context.errors().len(), 1);
    assert!(matches!(&context.errors()[0].1, ContextError::DuplicateExport(x) if x.same(&h)));
    assert!(context.add_module(m));
    assert!(context.current_scope().same(&Scope::root().join(m)));
    context.leave_module();
    assert!(!context.add_module(m));
    assert!(matches!(&context.errors()[1].1, ContextError::DuplicateModule(..)));
    assert_eq!(context.modules().len(), 2);
}

#[test]
fn context_use_declares_aliases_or_glob() {
    let mut context = Context::new();
    let p = context.atomize("p");
    let m = context.atomize("m");
    let alias = Handle::new_in_scope(Scope::root(), p, vec![Arity::Len(1)]);
    let source = Handle::new_in_scope(Scope::root().join(m), p, vec![Arity::Len(1)]);
    context.declare_use(Ok(vec![Alias { input: source.copy(), output: alias.copy() }]));
    assert_eq!(context.modules()[0].aliases().len(), 1);
    context.declare_use(Err(Scope::root().join(m)));
    assert_eq!(context.modules()[0].globbed_modules().len(), 1);
    context.declare_use(Err(Scope::root().join(m)));
    assert!(matches!(&context.errors()[0].1, ContextError::DuplicateGlob(..)));
}

#[test]
fn context_validates_headers() {
    let mut context = Context::new();
    let p = context.atomize("p");
    let h = Handle::new_in_scope(Scope::root(), p, vec![Arity::Len(1)]);
    context.declare_native(h.copy());
    context.validate_headers(&vec![]).unwrap();
    assert_eq!(context.errors().len(), 1);
    assert!(matches!(&context.errors()[0].1, ContextError::Header(HeaderError::NativeNotBound(..))));
    let mut bound = Context::new();
    let p = bound.atomize("p");
    let h = Handle::new_in_scope(Scope::root(), p, vec![Arity::Len(1)]);
    bound.declare_native(h.copy());
    bound.validate_headers(&vec![h.copy()]).unwrap();
    assert!(bound.is_ok());
}

#[test]
fn context_resolve_handle_reports_unresolved() {
    let mut context = Context::new();
    let p = context.atomize("p");
    let m = context.atomize("m");
    let here = Handle::new_in_scope(Scope::root(), p, vec![Arity::Len(1)]);
    context.declare_predicate(here.copy());
    assert!(context.resolve_handle(&here).unwrap().is_none());
    assert!(context.is_ok());
    let elsewhere = Handle::new_in_scope(Scope::root().join(m), p, vec![Arity::Len(1)]);
    assert!(context.resolve_handle(&elsewhere).unwrap().is_none());
    assert!(matches!(&context.errors()[0].1, ContextError::UnresolvedHandle(h) if h.same(&elsewhere)));
}

#[test]
fn database_groups_rules() {
    let n = names();
    let p = handle(&[], n.p, 1);
    let q = handle(&[], n.q, 1);
    let db = Database::new(vec![(p.copy(), vec![1u32, 2]), (q.copy(), vec![3]), (p.copy(), vec![4])]);
    assert_eq!(db.entries().len(), 2);
    match db.lookup(&p, false).unwrap() {
        Some(DatabaseDefinition::Static(rules)) => assert_eq!(rules, &vec![1, 2, 4]),
        other => panic!("unexpected definition {:?}", other),
    }
    assert!(db.lookup(&p, true).unwrap().is_none());
    assert!(!db.exports(&p));
}

#[test]
fn database_applies_header() {
    let n = names();
    let p = handle(&[], n.p, 1);
    let q = handle(&[], n.q, 1);
    let alias = handle(&[], n.a, 1);
    let native = handle(&[], n.b, 1);
    let incomplete = handle(&[], n.c, 1);
    let mut header = ModuleHeader::new(Scope::root());
    header.insert(p.copy());
    header.insert_public(p.copy());
    header.insert_alias(alias.copy(), p.copy());
    header.insert_public(alias.copy());
    header.insert_native(native.copy());
    header.insert_incomplete(incomplete.copy());
    header.insert_mutable(q.copy());
    let mut db = Database::new(vec![(p.copy(), vec![1u32])]);
    db.apply_header(&header, &vec![q.copy(), native.copy()]);
    assert!(db.exports(&p));
    assert!(db.exports(&alias));
    assert!(db.exports(&incomplete));
    assert!(!db.exports(&q));
    match db.lookup(&alias, true).unwrap() {
        Some(DatabaseDefinition::Static(rules)) => assert_eq!(rules, &vec![1]),
        other => panic!("unexpected definition {:?}", other),
    }
    assert!(db.resolve(&alias, true).unwrap().unwrap().same(&p));
    assert!(matches!(db.lookup(&native, false).unwrap(), Some(DatabaseDefinition::Native(1))));
    assert!(matches!(db.lookup(&q, false).unwrap(), Some(DatabaseDefinition::Mutable(rules)) if rules.is_empty()));
    assert!(matches!(db.lookup(&incomplete, true).unwrap(), Some(DatabaseDefinition::Static(rules)) if rules.is_empty()));
}

#[test]
fn database_merge_prefers_library() {
    let n = names();
    let p = handle(&[], n.p, 1);
    let q = handle(&[], n.q, 1);
    let program = Database::new(vec![(p.copy(), vec![1u32]), (q.copy(), vec![2])]);
    let library = Database::new(vec![(p.copy(), vec![9u32])]);
    let merged = program.merge(library);
    assert_eq!(merged.entries().len(), 2);
    assert!(matches!(merged.lookup(&p, false).unwrap(), Some(DatabaseDefinition::Static(rules)) if rules == &vec![9]));
    assert!(matches!(merged.lookup(&q, false).unwrap(), Some(DatabaseDefinition::Static(rules)) if rules == &vec![2]));
}

#[test]
fn database_alias_cycle_is_too_deep() {
    let n = names();
    let p = handle(&[], n.p, 1);
    let q = handle(&[], n.q, 1);
    let mut header = ModuleHeader::new(Scope::root());
    header.insert_alias(p.copy(), q.copy());
    header.insert_alias(q.copy(), p.copy());
    let mut db: Database<u32> = Database::new(vec![]);
    db.apply_header(&header, &vec![]);
    assert!(matches!(db.lookup_with(&p, false, 20), Err(ResolveError::TooDeep)));
    assert!(db.lookup(&handle(&[], n.c, 1), false).unwrap().is_none());
}

#[test]
fn empty_header_has_no_errors() {
    let n = names();
    let a = ModuleHeader::new(scope(&[n.a]));
    let modules = vec![a];
    assert!(modules[0].errors(&modules, &vec![]).unwrap().is_empty());
}

#[test]
fn declared_predicate_resolves_in_its_module() {
    let mut context = Context::new();
    let p = context.atomize("p");
    let h = Handle::new_in_scope(Scope::root(), p, vec![Arity::Len(2)]);
    context.declare_predicate(h.copy());
    let modules = context.modules();
    let r = modules[0].resolve(&h, &Scope::root(), modules).unwrap();
    assert!(r.same(&h));
}

#[test]
fn context_scopes_from_prefixes() {
    let mut context = Context::new();
    let m = context.atomize("m");
    let p = context.atomize("p");
    assert!(context.add_module(m));
    let relative = context.scope_of(None, &[p], "p").unwrap();
    assert!(relative.same(&Scope::root().join(m).join(p)));
    let up = context.scope_of(Some(ScopePrefix::Up(1)), &[p], "^::p").unwrap();
    assert!(up.same(&Scope::root().join(p)));
    assert!(context.is_ok());
    assert!(context.scope_of(Some(ScopePrefix::Up(2)), &[p], "^::^::p").is_none());
    assert!(matches!(&context.errors()[0].1, ContextError::NegativeScope(text) if text == "^::^::p"));
    let lib = context.scope_of(Some(ScopePrefix::Lib(m)), &[p], "@m::p").unwrap();
    assert_eq!(lib.lib(), Some(m));
    assert_eq!(lib.path(), &[p]);
}

#[test]
fn header_errors_for_native_misuse() {
    let n = names();
    let mut a = ModuleHeader::new(scope(&[n.a]));
    let imported = handle(&[n.a], n.p, 1);
    let mutable = handle(&[n.a], n.q, 1);
    let incomplete = handle(&[n.a], n.c, 1);
    a.insert_native(imported.copy());
    a.insert_alias(imported.copy(), handle(&[n.b], n.p, 1));
    a.insert_native(mutable.copy());
    a.insert_mutable(mutable.copy());
    a.insert_native(incomplete.copy());
    a.insert_incomplete(incomplete.copy());
    let mut b = ModuleHeader::new(scope(&[n.b]));
    let source = handle(&[n.b], n.p, 1);
    b.insert(source.copy());
    b.insert_public(source.copy());
    let modules = vec![a, b];
    let bound = vec![imported.copy(), mutable.copy(), incomplete.copy()];
    let errors = modules[0].errors(&modules, &bound).unwrap();
    assert!(matches!(&errors[0], HeaderError::NativeImported(h) if h.same(&imported)));
    assert!(matches!(&errors[1], HeaderError::NativeImplemented(h) if h.same(&mutable)));
    assert!(matches!(&errors[2], HeaderError::NativeImplemented(h) if h.same(&incomplete)));
}

#[test]
fn header_errors_for_incomplete_alias_and_unresolvable_import() {
    let n = names();
    let mut a = ModuleHeader::new(scope(&[n.a]));
    let alias = handle(&[n.a], n.p, 1);
    let hidden = handle(&[n.b], n.p, 1);
    a.insert_alias(alias.copy(), hidden.copy());
    a.insert_incomplete(alias.copy());
    let mut b = ModuleHeader::new(scope(&[n.b]));
    b.insert(hidden.copy());
    let modules = vec![a, b];
    let errors = modules[0].errors(&modules, &vec![]).unwrap();
    assert!(errors.iter().any(|e| matches!(e, HeaderError::AliasIncomplete(h) if h.same(&alias.head()))));
    assert!(errors.iter().any(|e| matches!(e, HeaderError::Unresolvable(ResolveError::NotVisible(..)))));
}

#[test]
fn context_reports_every_kind_of_duplicate() {
    let mut context = Context::new();
    let p = context.atomize("p");
    let q = context.atomize("q");
    let m = context.atomize("m");
    let h = Handle::new_in_scope(Scope::root(), p, vec![Arity::Len(1)]);
    let source = Handle::new_in_scope(Scope::root().join(m), q, vec![Arity::Len(1)]);
    context.declare_incomplete(h.copy());
    context.declare_incomplete(h.copy());
    context.declare_mutable(h.copy());
    context.declare_mutable(h.copy());
    context.declare_native(h.copy());
    context.declare_native(h.copy());
    context.declare_alias(h.copy(), source.copy());
    context.declare_alias(h.copy(), source.copy());
    context.error_unrecognized_operator("<=>");
    let errors = context.errors();
    assert_eq!(errors.len(), 5);
    assert!(matches!(&errors[0].1, ContextError::DuplicateIncomplete(x) if x.same(&h)));
    assert!(matches!(&errors[1].1, ContextError::DuplicateMutable(x) if x.same(&h)));
    assert!(matches!(&errors[2].1, ContextError::DuplicateNative(x) if x.same(&h)));
    assert!(matches!(&errors[3].1, ContextError::DuplicateImport(a, s) if a.same(&h) && s.same(&source)));
    assert!(matches!(&errors[4].1, ContextError::UnrecognizedOperator(t) if t == "<=>"));
    assert!(errors[4].0.same(&Scope::root()));
}

#[test]
fn context_reports_ambiguous_reference() {
    let mut context = Context::new();
    let p = context.atomize("p");
    let a = context.atomize("a");
    let b = context.atomize("b");
    let c = context.atomize("c");
    for module in [b, c] {
        assert!(context.add_module(module));
        let h = Handle::new_in_scope(Scope::root().join(module), p, vec![Arity::Len(1)]);
        context.declare_predicate(h.copy());
        context.declare_export(h);
        context.leave_module();
    }
    assert!(context.add_module(a));
    context.import_glob(Scope::root().join(b));
    context.import_glob(Scope::root().join(c));
    let here = Handle::new_in_scope(Scope::root().join(a), p, vec![Arity::Len(1)]);
    context.declare_export(here.copy());
    context.leave_module();
    assert!(context.resolve_handle(&here).unwrap().is_none());
    match &context.errors()[0].1 {
        ContextError::AmbiguousReference(h, candidates) => {
            assert!(h.same(&here));
            assert_eq!(candidates.len(), 2);
        }
        other => panic!("unexpected error {:?}", other),
    }
}

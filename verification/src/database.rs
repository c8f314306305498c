//! The database of a program: every predicate's definition, keyed by its handle.
//!
//! A definition is a sequence of rules, of any type `R`; a native function is named by its
//! position in the table of native functions that the program binds.
use crate::handle::{Handle, HandleView};
use crate::handle_set::{handle_views, pair_views, map_keys, map_get, map_insert, unique_map, lemma_map_insert, lemma_unique_index_of};
use crate::module_header::{ModuleHeader, ModuleHeaderView};
use crate::resolution::{ResolveError, ResolveErrorView};
use vstd::prelude::*;

verus! {

/// The mathematical value of a [`DatabaseDefinition`].
pub ghost enum DefinitionView<R> {
    Static(Seq<R>),
    Mutable(Seq<R>),
    Alias(HandleView),
    Native(usize),
}

/// The mathematical value of a [`DatabaseEntry`].
pub ghost struct EntryView<R> {
    pub public: bool,
    pub definition: DefinitionView<R>,
}

/// How a predicate is defined.
#[derive(Debug)]
pub enum DatabaseDefinition<R> {
    /// By rules fixed when the program was compiled.
    Static(Vec<R>),
    /// By rules that may change while the program runs.
    Mutable(Vec<R>),
    /// As another name for another predicate.
    Alias(Handle),
    /// By the native function at this position of the program's table.
    Native(usize),
}

impl<R> View for DatabaseDefinition<R> {
    type V = DefinitionView<R>;

    open spec fn view(&self) -> DefinitionView<R> {
        match self {
            DatabaseDefinition::Static(rules) => DefinitionView::Static(rules@),
            DatabaseDefinition::Mutable(rules) => DefinitionView::Mutable(rules@),
            DatabaseDefinition::Alias(h) => DefinitionView::Alias(h@),
            DatabaseDefinition::Native(i) => DefinitionView::Native(*i),
        }
    }
}

impl<R> DatabaseDefinition<R> {
    /// Makes a definition by fixed rules changeable at runtime.
    pub fn set_mutable(&mut self)
        requires
            old(self)@ is Static,
        ensures
            final(self)@ == DefinitionView::<R>::Mutable(old(self)@->Static_0),
    {
        let mut taken = DatabaseDefinition::Native(0);
        std::mem::swap(self, &mut taken);
        match taken {
            DatabaseDefinition::Static(rules) => {
                *self = DatabaseDefinition::Mutable(rules);
            },
            _ => {
                *self = taken;
            },
        }
    }
}

/// A predicate's definition, and whether other modules may use it.
#[derive(Debug)]
pub struct DatabaseEntry<R> {
    pub public: bool,
    pub definition: DatabaseDefinition<R>,
}

impl<R> View for DatabaseEntry<R> {
    type V = EntryView<R>;

    open spec fn view(&self) -> EntryView<R> {
        EntryView { public: self.public, definition: self.definition@ }
    }
}

impl<R> DatabaseEntry<R> {
    /// A private entry for `definition`.
    pub fn new(definition: DatabaseDefinition<R>) -> (r: DatabaseEntry<R>)
        ensures
            r@ == (EntryView { public: false, definition: definition@ }),
    {
        DatabaseEntry { public: false, definition }
    }

    /// Makes this entry public.
    pub fn set_public(&mut self)
        ensures
            final(self)@ == (EntryView { public: true, ..old(self)@ }),
    {
        self.public = true;
    }
}

/// The entries of a database: each handle and its entry.
pub open spec fn entry_views<R>(s: Seq<(Handle, DatabaseEntry<R>)>) -> Seq<(HandleView, EntryView<R>)> {
    s.map_values(|p: (Handle, DatabaseEntry<R>)| (p.0@, p.1@))
}

/// The rules given for each handle, merged in order: the rules of a handle given more than
/// once are those of each time it is given, one after another.
pub open spec fn grouped<R>(pairs: Seq<(HandleView, Seq<R>)>) -> Seq<(HandleView, Seq<R>)>
    decreases pairs.len(),
{
    if pairs.len() == 0 {
        Seq::empty()
    } else {
        let prev = grouped(pairs.drop_last());
        let h = pairs.last().0;
        let before = match map_get(prev, h) {
            Some(rules) => rules,
            None => Seq::empty(),
        };
        map_insert(prev, h, before + pairs.last().1)
    }
}

/// Each group of rules as a private entry of fixed rules.
pub open spec fn static_entries<R>(groups: Seq<(HandleView, Seq<R>)>) -> Seq<(HandleView, EntryView<R>)> {
    groups.map_values(|p: (HandleView, Seq<R>)| (p.0, EntryView { public: false, definition: DefinitionView::Static(p.1) }))
}

/// The entries with `k` given `e` unless it has an entry already.
pub open spec fn or_insert<R>(entries: Seq<(HandleView, EntryView<R>)>, k: HandleView, e: EntryView<R>) -> Seq<(HandleView, EntryView<R>)> {
    if map_keys(entries).contains(k) {
        entries
    } else {
        entries.push((k, e))
    }
}

/// The entries with the entry of `k` changed by `f`.
pub open spec fn update_entry<R>(entries: Seq<(HandleView, EntryView<R>)>, k: HandleView, f: spec_fn(EntryView<R>) -> EntryView<R>) -> Seq<(HandleView, EntryView<R>)> {
    let i = map_keys(entries).index_of(k);
    entries.update(i, (k, f(entries[i].1)))
}

/// An entry made public.
pub open spec fn made_public<R>() -> spec_fn(EntryView<R>) -> EntryView<R> {
    |e: EntryView<R>| EntryView { public: true, ..e }
}

/// An entry of fixed rules made changeable.
pub open spec fn made_mutable<R>() -> spec_fn(EntryView<R>) -> EntryView<R> {
    |e: EntryView<R>| EntryView { definition: DefinitionView::Mutable(e.definition->Static_0), ..e }
}

/// A private entry of no rules.
pub open spec fn empty_static<R>() -> EntryView<R> {
    EntryView { public: false, definition: DefinitionView::Static(Seq::empty()) }
}

/// The entries after each alias of `aliases` is entered as such.
pub open spec fn with_aliases<R>(entries: Seq<(HandleView, EntryView<R>)>, aliases: Seq<(HandleView, HandleView)>) -> Seq<(HandleView, EntryView<R>)>
    decreases aliases.len(),
{
    if aliases.len() == 0 {
        entries
    } else {
        let a = aliases.last();
        map_insert(with_aliases(entries, aliases.drop_last()), a.0, EntryView { public: false, definition: DefinitionView::Alias(a.1) })
    }
}

/// The entries after each native of `natives` is entered as bound to its position in
/// `bound`.
pub open spec fn with_natives<R>(entries: Seq<(HandleView, EntryView<R>)>, natives: Seq<HandleView>, bound: Seq<HandleView>) -> Seq<(HandleView, EntryView<R>)>
    decreases natives.len(),
{
    if natives.len() == 0 {
        entries
    } else {
        let n = natives.last();
        map_insert(with_natives(entries, natives.drop_last(), bound), n, EntryView { public: false, definition: DefinitionView::Native(bound.index_of(n) as usize) })
    }
}

/// The entries after each of `handles` without an entry is given one of no rules.
pub open spec fn with_defaults<R>(entries: Seq<(HandleView, EntryView<R>)>, handles: Seq<HandleView>) -> Seq<(HandleView, EntryView<R>)>
    decreases handles.len(),
{
    if handles.len() == 0 {
        entries
    } else {
        or_insert(with_defaults(entries, handles.drop_last()), handles.last(), empty_static())
    }
}

/// The entries after the entry of each of `handles` is changed by `f`.
pub open spec fn with_updates<R>(entries: Seq<(HandleView, EntryView<R>)>, handles: Seq<HandleView>, f: spec_fn(EntryView<R>) -> EntryView<R>) -> Seq<(HandleView, EntryView<R>)>
    decreases handles.len(),
{
    if handles.len() == 0 {
        entries
    } else {
        update_entry(with_updates(entries, handles.drop_last(), f), handles.last(), f)
    }
}

/// The entries before the exports of a module header are made public: its aliases, its
/// natives, and a default for each of its incomplete and mutable predicates without one.
pub open spec fn header_entries<R>(entries: Seq<(HandleView, EntryView<R>)>, m: ModuleHeaderView, bound: Seq<HandleView>) -> Seq<(HandleView, EntryView<R>)> {
    with_defaults(with_defaults(with_natives(with_aliases(entries, m.aliases), m.natives, bound), m.incompletes), m.mutables)
}

/// The entries after a module header is applied; see [`Database::apply_header`].
pub open spec fn applied_header<R>(entries: Seq<(HandleView, EntryView<R>)>, m: ModuleHeaderView, bound: Seq<HandleView>) -> Seq<(HandleView, EntryView<R>)> {
    with_updates(with_updates(header_entries(entries, m, bound), m.exports, made_public()), m.mutables, made_mutable())
}

/// Whether each handle of `handles` has an entry in `entries`.
pub open spec fn all_present<R>(entries: Seq<(HandleView, EntryView<R>)>, handles: Seq<HandleView>) -> bool {
    forall|i: int| 0 <= i < handles.len() ==> map_keys(entries).contains(#[trigger] handles[i])
}

/// Whether the entry of each handle of `handles` holds fixed rules.
pub open spec fn all_static<R>(entries: Seq<(HandleView, EntryView<R>)>, handles: Seq<HandleView>) -> bool {
    forall|i: int| 0 <= i < handles.len() ==> (#[trigger] map_get(entries, handles[i]) matches Some(e) && e.definition is Static)
}

/// The database of a program.
#[derive(Debug)]
pub struct Database<R> {
    definitions: Vec<(Handle, DatabaseEntry<R>)>,
}

impl<R> View for Database<R> {
    type V = Seq<(HandleView, EntryView<R>)>;

    closed spec fn view(&self) -> Seq<(HandleView, EntryView<R>)> {
        entry_views(self.definitions@)
    }
}


/// The views of handles each given with rules.
pub open spec fn rule_pairs<R>(s: Seq<(Handle, Vec<R>)>) -> Seq<(HandleView, Seq<R>)> {
    s.map_values(|p: (Handle, Vec<R>)| (p.0@, p.1@))
}

/// Grouping rules by handle gives each handle once.
pub proof fn lemma_grouped_unique<R>(pairs: Seq<(HandleView, Seq<R>)>)
    ensures
        unique_map(grouped(pairs)),
    decreases pairs.len(),
{
    if pairs.len() == 0 {
        assert(map_keys(grouped(pairs)) =~= Seq::<HandleView>::empty());
    } else {
        lemma_grouped_unique(pairs.drop_last());
        let prev = grouped(pairs.drop_last());
        let h = pairs.last().0;
        let before = match map_get(prev, h) {
            Some(rules) => rules,
            None => Seq::empty(),
        };
        lemma_map_insert(prev, h, before + pairs.last().1);
    }
}

/// The position of the pair of `m` whose key is `k`, if any.
fn find_handle<X>(m: &Vec<(Handle, X)>, k: &Handle) -> (r: Option<usize>)
    ensures
        match r {
            Some(i) => i < m@.len() && m@[i as int].0@ == k@,
            None => forall|j: int| 0 <= j < m@.len() ==> (#[trigger] m@[j]).0@ != k@,
        },
{
    let mut i: usize = 0;
    while i < m.len()
        invariant
            0 <= i <= m@.len(),
            forall|j: int| 0 <= j < i ==> (#[trigger] m@[j]).0@ != k@,
        decreases m@.len() - i,
    {
        if m[i].0.same(k) {
            return Some(i);
        }
        i = i + 1;
    }
    None
}

impl<R> Database<R> {
    /// Each handle has one entry.
    pub open spec fn wf(&self) -> bool {
        unique_map(self@)
    }

    /// Whether each handle has one entry; see [`Database::wf`].
    pub fn is_wf(&self) -> (r: bool)
        ensures
            r == self.wf(),
    {
        let n = self.definitions.len();
        let ghost keys = map_keys(self@);
        proof {
            assert(keys.len() == n);
            assert forall|k: int| 0 <= k < n implies #[trigger] keys[k] == self.definitions@[k].0@ by {}
        }
        let mut i: usize = 0;
        while i < n
            invariant
                n == self.definitions@.len(),
                keys == map_keys(self@),
                keys.len() == n,
                forall|k: int| 0 <= k < n ==> #[trigger] keys[k] == self.definitions@[k].0@,
                i <= n,
                forall|a: int, b: int| 0 <= a < i && 0 <= b < n && a != b ==> #[trigger] keys[a] != #[trigger] keys[b],
            decreases n - i,
        {
            let mut j: usize = 0;
            while j < n
                invariant
                    n == self.definitions@.len(),
                    keys == map_keys(self@),
                    keys.len() == n,
                    forall|k: int| 0 <= k < n ==> #[trigger] keys[k] == self.definitions@[k].0@,
                    i < n,
                    j <= n,
                    forall|a: int, b: int| 0 <= a < i && 0 <= b < n && a != b ==> #[trigger] keys[a] != #[trigger] keys[b],
                    forall|b: int| 0 <= b < j && b != i ==> keys[i as int] != #[trigger] keys[b],
                decreases n - j,
            {
                if j != i && self.definitions[i].0.same(&self.definitions[j].0) {
                    proof {
                        assert(keys[i as int] == keys[j as int]);
                        assert(!keys.no_duplicates());
                    }
                    return false;
                }
                j = j + 1;
            }
            i = i + 1;
        }
        true
    }

    /// The database in which each handle given has a private entry of the rules given for
    /// it, in order; see [`grouped`].
    pub fn new(definitions: Vec<(Handle, Vec<R>)>) -> (r: Database<R>)
        ensures
            r@ == static_entries(grouped(rule_pairs(definitions@))),
            r.wf(),
    {
        let ghost all = rule_pairs(definitions@);
        let n = definitions.len();
        let mut input = definitions;
        let mut groups: Vec<(Handle, Vec<R>)> = Vec::new();
        let mut k: usize = 0;
        proof {
            assert(all.subrange(0, 0) =~= Seq::<(HandleView, Seq<R>)>::empty());
            assert(rule_pairs(groups@) =~= Seq::<(HandleView, Seq<R>)>::empty());
            assert(rule_pairs(input@) =~= all.subrange(0, n as int));
        }
        while k < n
            invariant
                0 <= k <= n,
                n == all.len(),
                input@.len() == n - k,
                rule_pairs(input@) == all.subrange(k as int, n as int),
                rule_pairs(groups@) == grouped(all.subrange(0, k as int)),
            decreases n - k,
        {
            let ghost prefix = all.subrange(0, k as int + 1);
            proof {
                assert(prefix.drop_last() =~= all.subrange(0, k as int));
                assert(rule_pairs(input@)[0] == all[k as int]);
                lemma_grouped_unique(all.subrange(0, k as int));
            }
            let ghost g = rule_pairs(groups@);
            let ghost first = input@[0];
            let ghost old_input = input@;
            let (h, mut rules) = input.remove(0);
            proof {
                assert(h == first.0 && rules == first.1);
                assert(prefix.last() == (h@, rules@));
                assert forall|i: int| 0 <= i < input@.len() implies #[trigger] rule_pairs(input@)[i] == all.subrange(k as int + 1, n as int)[i] by {
                    assert(input@[i] == old_input[i + 1]);
                    assert(rule_pairs(old_input)[i + 1] == all.subrange(k as int, n as int)[i + 1]);
                }
                assert(rule_pairs(input@) =~= all.subrange(k as int + 1, n as int));
            }
            match find_handle(&groups, &h) {
                Some(j) => {
                    proof {
                        assert(map_keys(g)[j as int] == h@);
                        lemma_unique_index_of(map_keys(g), j as int);
                    }
                    let (h0, mut existing) = groups.remove(j);
                    existing.append(&mut rules);
                    groups.insert(j, (h0, existing));
                    proof {
                        assert(rule_pairs(groups@) =~= g.update(j as int, (h@, g[j as int].1 + prefix.last().1)));
                    }
                },
                None => {
                    proof {
                        assert(!map_keys(g).contains(h@)) by {
                            if map_keys(g).contains(h@) {
                                let j = choose|j: int| 0 <= j < map_keys(g).len() && map_keys(g)[j] == h@;
                                assert(groups@[j].0@ == h@);
                            }
                        }
                        assert(Seq::<R>::empty() + rules@ =~= rules@);
                    }
                    groups.push((h, rules));
                    proof {
                        assert(rule_pairs(groups@) =~= g.push((h@, prefix.last().1)));
                    }
                },
            }
            k = k + 1;
        }
        proof {
            assert(all.subrange(0, n as int) =~= all);
            lemma_grouped_unique(all);
        }
        let ghost gs = rule_pairs(groups@);
        let m = groups.len();
        let mut entries: Vec<(Handle, DatabaseEntry<R>)> = Vec::new();
        let mut t: usize = 0;
        proof {
            assert(entry_views(entries@) =~= static_entries(gs.subrange(0, 0)));
            assert(rule_pairs(groups@) =~= gs.subrange(0, m as int));
        }
        while t < m
            invariant
                0 <= t <= m,
                m == gs.len(),
                groups@.len() == m - t,
                rule_pairs(groups@) == gs.subrange(t as int, m as int),
                entry_views(entries@) == static_entries(gs.subrange(0, t as int)),
            decreases m - t,
        {
            proof {
                assert(rule_pairs(groups@)[0] == gs[t as int]);
            }
            let ghost first = groups@[0];
            let ghost old_groups = groups@;
            let (h, rules) = groups.remove(0);
            let ghost before = entries@;
            entries.push((h, DatabaseEntry::new(DatabaseDefinition::Static(rules))));
            proof {
                assert forall|i: int| 0 <= i < groups@.len() implies #[trigger] rule_pairs(groups@)[i] == gs.subrange(t as int + 1, m as int)[i] by {
                    assert(groups@[i] == old_groups[i + 1]);
                    assert(rule_pairs(old_groups)[i + 1] == gs.subrange(t as int, m as int)[i + 1]);
                }
                assert(rule_pairs(groups@) =~= gs.subrange(t as int + 1, m as int));
                assert(h == first.0 && rules == first.1);
                assert(rule_pairs(old_groups)[0] == gs[t as int]);
                assert(entry_views(entries@) =~= entry_views(before).push((h@, EntryView { public: false, definition: DefinitionView::Static(rules@) })));
                assert(static_entries(gs.subrange(0, t as int + 1)) =~= static_entries(gs.subrange(0, t as int)).push((gs[t as int].0, EntryView { public: false, definition: DefinitionView::Static(gs[t as int].1) })));
                assert(entry_views(entries@) =~= static_entries(gs.subrange(0, t as int + 1)));
            }
            t = t + 1;
        }
        proof {
            assert(gs.subrange(0, m as int) =~= gs);
            assert(map_keys(static_entries(gs)) =~= map_keys(gs));
        }
        Database { definitions: entries }
    }
}


/// Reading a map after writing it: the key written has the value written, every other key
/// keeps its value, and the keys stay unique.
pub proof fn lemma_map_get_insert<A, B>(m: Seq<(A, B)>, k: A, v: B, k2: A)
    requires
        unique_map(m),
    ensures
        unique_map(map_insert(m, k, v)),
        map_get(map_insert(m, k, v), k2) == (if k2 == k { Some(v) } else { map_get(m, k2) }),
{
    lemma_map_insert(m, k, v);
    let after = map_insert(m, k, v);
    let keys = map_keys(m);
    if k2 != k {
        if keys.contains(k) {
            assert(map_keys(after) =~= keys);
            if keys.contains(k2) {
                let j = keys.index_of(k2);
                assert(map_keys(after)[j] == k2);
                lemma_unique_index_of(map_keys(after), j);
            }
        } else {
            assert(map_keys(after) =~= keys.push(k));
            if keys.contains(k2) {
                let j = keys.index_of(k2);
                assert(map_keys(after)[j] == k2);
                lemma_unique_index_of(map_keys(after), j);
            } else {
                assert(!map_keys(after).contains(k2)) by {
                    if map_keys(after).contains(k2) {
                        let j = choose|j: int| 0 <= j < map_keys(after).len() && map_keys(after)[j] == k2;
                        if j < keys.len() {
                            assert(keys[j] == k2);
                        }
                    }
                }
            }
        }
    }
}

/// Changing the entry of a key changes what it maps to and nothing else.
pub proof fn lemma_update_entry<R>(entries: Seq<(HandleView, EntryView<R>)>, k: HandleView, f: spec_fn(EntryView<R>) -> EntryView<R>, k2: HandleView)
    requires
        unique_map(entries),
        map_keys(entries).contains(k),
    ensures
        unique_map(update_entry(entries, k, f)),
        map_keys(update_entry(entries, k, f)) == map_keys(entries),
        map_get(update_entry(entries, k, f), k) == Some(f(map_get(entries, k).unwrap())),
        k2 != k ==> map_get(update_entry(entries, k, f), k2) == map_get(entries, k2),
{
    let i = map_keys(entries).index_of(k);
    let after = update_entry(entries, k, f);
    assert(map_keys(after) =~= map_keys(entries));
    lemma_unique_index_of(map_keys(entries), i);
    if k2 != k && map_keys(entries).contains(k2) {
        let j = map_keys(entries).index_of(k2);
        lemma_unique_index_of(map_keys(entries), j);
    }
}

/// Giving a key a default entry when it has none keeps the keys unique and the keys it
/// had.
pub proof fn lemma_or_insert<R>(entries: Seq<(HandleView, EntryView<R>)>, k: HandleView, e: EntryView<R>, k2: HandleView)
    requires
        unique_map(entries),
    ensures
        unique_map(or_insert(entries, k, e)),
        map_keys(or_insert(entries, k, e)).contains(k),
        map_keys(entries).contains(k2) ==> map_get(or_insert(entries, k, e), k2) == map_get(entries, k2),
{
    if !map_keys(entries).contains(k) {
        lemma_map_get_insert(entries, k, e, k2);
        assert(map_insert(entries, k, e) == or_insert(entries, k, e));
        lemma_map_insert(entries, k, e);
        crate::handle_set::lemma_set_insert_no_duplicates_contains(map_keys(entries), k);
    }
}

impl<R> Database<R> {
    /// The position of the entry of `h`.
    fn position(&self, h: &Handle) -> (r: Option<usize>)
        requires
            self.wf(),
        ensures
            match r {
                Some(i) => i < self@.len() && i == map_keys(self@).index_of(h@) && map_keys(self@).contains(h@)
                    && self@[i as int].0 == h@,
                None => !map_keys(self@).contains(h@),
            },
    {
        match find_handle(&self.definitions, h) {
            Some(i) => {
                proof {
                    assert(map_keys(self@)[i as int] == h@);
                    lemma_unique_index_of(map_keys(self@), i as int);
                }
                Some(i)
            },
            None => {
                proof {
                    if map_keys(self@).contains(h@) {
                        let j = choose|j: int| 0 <= j < map_keys(self@).len() && map_keys(self@)[j] == h@;
                        assert(self.definitions@[j].0@ == h@);
                    }
                }
                None
            },
        }
    }

    /// Gives `h` the entry `e`, replacing any entry it had.
    fn put(&mut self, h: Handle, e: DatabaseEntry<R>)
        requires
            old(self).wf(),
        ensures
            final(self)@ == map_insert(old(self)@, h@, e@),
            final(self).wf(),
    {
        proof {
            lemma_map_insert(self@, h@, e@);
        }
        let ghost before = self@;
        match self.position(&h) {
            Some(i) => {
                self.definitions.set(i, (h, e));
                proof {
                    assert(self@ =~= before.update(i as int, (h@, e@)));
                }
            },
            None => {
                self.definitions.push((h, e));
                proof {
                    assert(self@ =~= before.push((h@, e@)));
                }
            },
        }
    }

    /// Gives `h` a private entry of no rules when it has no entry.
    fn put_default(&mut self, h: &Handle)
        requires
            old(self).wf(),
        ensures
            final(self)@ == or_insert(old(self)@, h@, empty_static()),
            final(self).wf(),
    {
        proof {
            lemma_or_insert(self@, h@, empty_static(), h@);
        }
        let ghost before = self@;
        if self.position(h).is_none() {
            self.definitions.push((h.copy(), DatabaseEntry::new(DatabaseDefinition::Static(Vec::new()))));
            proof {
                assert(self@ =~= before.push((h@, empty_static())));
            }
        }
    }

    /// Makes the entry of `h` public.
    fn make_public(&mut self, h: &Handle)
        requires
            old(self).wf(),
            map_keys(old(self)@).contains(h@),
        ensures
            final(self)@ == update_entry(old(self)@, h@, made_public()),
            final(self).wf(),
    {
        proof {
            lemma_update_entry(self@, h@, made_public(), h@);
        }
        let ghost before = self@;
        match self.position(h) {
            Some(i) => {
                let (k, mut e) = self.definitions.remove(i);
                e.set_public();
                self.definitions.insert(i, (k, e));
                proof {
                    assert(self@ =~= before.update(i as int, (h@, made_public()(before[i as int].1))));
                }
            },
            None => {},
        }
    }

    /// Makes the fixed rules of `h` changeable.
    fn make_mutable(&mut self, h: &Handle)
        requires
            old(self).wf(),
            map_get(old(self)@, h@) matches Some(e) && e.definition is Static,
        ensures
            final(self)@ == update_entry(old(self)@, h@, made_mutable()),
            final(self).wf(),
    {
        proof {
            lemma_update_entry(self@, h@, made_mutable(), h@);
        }
        let ghost before = self@;
        match self.position(h) {
            Some(i) => {
                let (k, mut e) = self.definitions.remove(i);
                e.definition.set_mutable();
                self.definitions.insert(i, (k, e));
                proof {
                    assert(self@ =~= before.update(i as int, (h@, made_mutable()(before[i as int].1))));
                }
            },
            None => {},
        }
    }

    /// Enters the declarations of a module header: each alias, as an alias of its source;
    /// each native function, as the one at its position in `bound`; a private entry of no
    /// rules for each incomplete or mutable predicate without an entry; then each export is
    /// made public and each mutable predicate changeable; see [`applied_header`].
    pub fn apply_header(&mut self, header: &ModuleHeader, bound: &Vec<Handle>)
        requires
            old(self).wf(),
            header@.wf(),
            handle_views(bound@).no_duplicates(),
            forall|i: int| 0 <= i < header@.natives.len() ==> handle_views(bound@).contains(#[trigger] header@.natives[i]),
            all_present(header_entries(old(self)@, header@, handle_views(bound@)), header@.exports),
            all_static(with_updates(header_entries(old(self)@, header@, handle_views(bound@)), header@.exports, made_public()), header@.mutables),
        ensures
            final(self)@ == applied_header(old(self)@, header@, handle_views(bound@)),
            final(self).wf(),
    {
        let ghost start = self@;
        let ghost bv = handle_views(bound@);
        let aliases = header.aliases();
        let mut i: usize = 0;
        proof {
            assert(header@.aliases.subrange(0, 0) =~= Seq::<(HandleView, HandleView)>::empty());
        }
        while i < aliases.len()
            invariant
                0 <= i <= aliases@.len(),
                pair_views(aliases@) == header@.aliases,
                self.wf(),
                self@ == with_aliases(start, header@.aliases.subrange(0, i as int)),
            decreases aliases@.len() - i,
        {
            proof {
                let s = header@.aliases.subrange(0, i as int + 1);
                assert(s.drop_last() =~= header@.aliases.subrange(0, i as int));
                assert(s.last() == (aliases@[i as int].0@, aliases@[i as int].1@));
            }
            self.put(aliases[i].0.copy(), DatabaseEntry::new(DatabaseDefinition::Alias(aliases[i].1.copy())));
            i = i + 1;
        }
        proof {
            assert(header@.aliases.subrange(0, i as int) =~= header@.aliases);
        }
        let ghost after_aliases = self@;
        let natives = header.natives();
        let mut j: usize = 0;
        proof {
            assert(header@.natives.subrange(0, 0) =~= Seq::<HandleView>::empty());
        }
        while j < natives.len()
            invariant
                0 <= j <= natives@.len(),
                handle_views(natives@) == header@.natives,
                bv == handle_views(bound@),
                bv.no_duplicates(),
                forall|k: int| 0 <= k < header@.natives.len() ==> bv.contains(#[trigger] header@.natives[k]),
                self.wf(),
                self@ == with_natives(after_aliases, header@.natives.subrange(0, j as int), bv),
            decreases natives@.len() - j,
        {
            proof {
                let s = header@.natives.subrange(0, j as int + 1);
                assert(s.drop_last() =~= header@.natives.subrange(0, j as int));
                assert(s.last() == natives@[j as int]@);
                assert(bv.contains(header@.natives[j as int]));
            }
            let position = find_handle_in(bound, &natives[j]);
            proof {
                lemma_unique_index_of(bv, position as int);
            }
            self.put(natives[j].copy(), DatabaseEntry::new(DatabaseDefinition::Native(position)));
            j = j + 1;
        }
        proof {
            assert(header@.natives.subrange(0, j as int) =~= header@.natives);
        }
        let ghost after_natives = self@;
        let incompletes = header.incompletes();
        let mut k: usize = 0;
        proof {
            assert(header@.incompletes.subrange(0, 0) =~= Seq::<HandleView>::empty());
        }
        while k < incompletes.len()
            invariant
                0 <= k <= incompletes@.len(),
                handle_views(incompletes@) == header@.incompletes,
                self.wf(),
                self@ == with_defaults(after_natives, header@.incompletes.subrange(0, k as int)),
            decreases incompletes@.len() - k,
        {
            proof {
                let s = header@.incompletes.subrange(0, k as int + 1);
                assert(s.drop_last() =~= header@.incompletes.subrange(0, k as int));
                assert(s.last() == incompletes@[k as int]@);
            }
            self.put_default(&incompletes[k]);
            k = k + 1;
        }
        proof {
            assert(header@.incompletes.subrange(0, k as int) =~= header@.incompletes);
        }
        let ghost after_incompletes = self@;
        let mutables = header.mutables();
        let mut l: usize = 0;
        proof {
            assert(header@.mutables.subrange(0, 0) =~= Seq::<HandleView>::empty());
        }
        while l < mutables.len()
            invariant
                0 <= l <= mutables@.len(),
                handle_views(mutables@) == header@.mutables,
                self.wf(),
                self@ == with_defaults(after_incompletes, header@.mutables.subrange(0, l as int)),
            decreases mutables@.len() - l,
        {
            proof {
                let s = header@.mutables.subrange(0, l as int + 1);
                assert(s.drop_last() =~= header@.mutables.subrange(0, l as int));
                assert(s.last() == mutables@[l as int]@);
            }
            self.put_default(&mutables[l]);
            l = l + 1;
        }
        proof {
            assert(header@.mutables.subrange(0, l as int) =~= header@.mutables);
            assert(self@ == header_entries(start, header@, bv));
        }
        let ghost entered = self@;
        let exports = header.exports();
        let mut x: usize = 0;
        proof {
            assert(header@.exports.subrange(0, 0) =~= Seq::<HandleView>::empty());
        }
        while x < exports.len()
            invariant
                0 <= x <= exports@.len(),
                handle_views(exports@) == header@.exports,
                self.wf(),
                all_present(entered, header@.exports),
                map_keys(self@) == map_keys(entered),
                self@ == with_updates(entered, header@.exports.subrange(0, x as int), made_public()),
            decreases exports@.len() - x,
        {
            proof {
                let s = header@.exports.subrange(0, x as int + 1);
                assert(s.drop_last() =~= header@.exports.subrange(0, x as int));
                assert(s.last() == exports@[x as int]@);
                assert(map_keys(entered).contains(header@.exports[x as int]));
                lemma_update_entry(self@, exports@[x as int]@, made_public(), exports@[x as int]@);
            }
            self.make_public(&exports[x]);
            x = x + 1;
        }
        proof {
            assert(header@.exports.subrange(0, x as int) =~= header@.exports);
        }
        let ghost published = self@;
        let mut y: usize = 0;
        proof {
            assert(header@.mutables.subrange(0, 0) =~= Seq::<HandleView>::empty());
        }
        while y < mutables.len()
            invariant
                0 <= y <= mutables@.len(),
                handle_views(mutables@) == header@.mutables,
                header@.mutables.no_duplicates(),
                self.wf(),
                all_static(published, header@.mutables),
                forall|z: int| y <= z < header@.mutables.len() ==> map_get(self@, #[trigger] header@.mutables[z]) == map_get(published, header@.mutables[z]),
                self@ == with_updates(published, header@.mutables.subrange(0, y as int), made_mutable()),
            decreases mutables@.len() - y,
        {
            let ghost before = self@;
            let ghost h = header@.mutables[y as int];
            proof {
                let s = header@.mutables.subrange(0, y as int + 1);
                assert(s.drop_last() =~= header@.mutables.subrange(0, y as int));
                assert(s.last() == mutables@[y as int]@);
                assert(map_get(published, h) matches Some(e) && e.definition is Static);
                assert(map_get(self@, h) == map_get(published, h));
                crate::handle_set::lemma_map_get_some_contains(self@, h);
            }
            self.make_mutable(&mutables[y]);
            proof {
                assert forall|z: int| y + 1 <= z < header@.mutables.len() implies map_get(self@, #[trigger] header@.mutables[z]) == map_get(published, header@.mutables[z]) by {
                    assert(header@.mutables[z] != h);
                    lemma_update_entry(before, h, made_mutable(), header@.mutables[z]);
                }
            }
            y = y + 1;
        }
        proof {
            assert(header@.mutables.subrange(0, y as int) =~= header@.mutables);
        }
    }
}

/// The position of the handle equal to `h` in `v`, which holds one.
fn find_handle_in(v: &Vec<Handle>, h: &Handle) -> (r: usize)
    requires
        handle_views(v@).contains(h@),
    ensures
        r < v@.len(),
        v@[r as int]@ == h@,
{
    let mut i: usize = 0;
    while i < v.len()
        invariant
            0 <= i <= v@.len(),
            handle_views(v@).contains(h@),
            forall|j: int| 0 <= j < i ==> v@[j]@ != h@,
        decreases v@.len() - i,
    {
        if v[i].same(h) {
            return i;
        }
        i = i + 1;
    }
    proof {
        let j = choose|j: int| 0 <= j < handle_views(v@).len() && handle_views(v@)[j] == h@;
        assert(v@[j]@ == h@);
    }
    0
}


/// The definition that `h` names, following aliases, in at most `fuel` steps: `None` when
/// it has no entry, or when `public` asks for a public entry and its entry is private. An
/// alias is followed to its source whatever the source's visibility.
pub open spec fn lookup_entry<R>(entries: Seq<(HandleView, EntryView<R>)>, h: HandleView, public: bool, fuel: nat) -> Result<Option<DefinitionView<R>>, ResolveErrorView>
    decreases fuel,
{
    if fuel == 0 {
        Err(ResolveErrorView::TooDeep)
    } else {
        match map_get(entries, h) {
            None => Ok(None),
            Some(e) => if public && !e.public {
                Ok(None)
            } else {
                match e.definition {
                    DefinitionView::Alias(source) => lookup_entry(entries, source, false, (fuel - 1) as nat),
                    d => Ok(Some(d)),
                }
            },
        }
    }
}

/// The handle that `h` stands for, following aliases, in at most `fuel` steps; `None` as
/// in [`lookup_entry`].
pub open spec fn resolve_entry<R>(entries: Seq<(HandleView, EntryView<R>)>, h: HandleView, public: bool, fuel: nat) -> Result<Option<HandleView>, ResolveErrorView>
    decreases fuel,
{
    if fuel == 0 {
        Err(ResolveErrorView::TooDeep)
    } else {
        match map_get(entries, h) {
            None => Ok(None),
            Some(e) => if public && !e.public {
                Ok(None)
            } else {
                match e.definition {
                    DefinitionView::Alias(source) => resolve_entry(entries, source, false, (fuel - 1) as nat),
                    _ => Ok(Some(h)),
                }
            },
        }
    }
}

/// The entries of `lib` added to `entries`, each replacing the entry of the same handle.
pub open spec fn merged<R>(entries: Seq<(HandleView, EntryView<R>)>, lib: Seq<(HandleView, EntryView<R>)>) -> Seq<(HandleView, EntryView<R>)>
    decreases lib.len(),
{
    if lib.len() == 0 {
        entries
    } else {
        map_insert(merged(entries, lib.drop_last()), lib.last().0, lib.last().1)
    }
}

/// The number of steps in which the aliases of a database of `n` entries are followed:
/// `n + 1`, as far as a `u64` goes.
pub open spec fn alias_depth(n: nat) -> nat {
    if n + 1 > u64::MAX {
        u64::MAX as nat
    } else {
        n + 1
    }
}

/// The view of the result of a lookup.
pub open spec fn lookup_view<R>(r: Result<Option<&DatabaseDefinition<R>>, ResolveError>) -> Result<Option<DefinitionView<R>>, ResolveErrorView> {
    match r {
        Ok(Some(d)) => Ok(Some(d@)),
        Ok(None) => Ok(None),
        Err(e) => Err(e@),
    }
}

/// The view of the result of a resolution in the database.
pub open spec fn resolved_view(r: Result<Option<Handle>, ResolveError>) -> Result<Option<HandleView>, ResolveErrorView> {
    match r {
        Ok(Some(h)) => Ok(Some(h@)),
        Ok(None) => Ok(None),
        Err(e) => Err(e@),
    }
}

impl<R> Database<R> {
    /// The definition that `handle` names, in at most `fuel` steps; see [`lookup_entry`].
    pub fn lookup_with(&self, handle: &Handle, public: bool, fuel: u64) -> (r: Result<Option<&DatabaseDefinition<R>>, ResolveError>)
        requires
            self.wf(),
        ensures
            lookup_view(r) == lookup_entry(self@, handle@, public, fuel as nat),
        decreases fuel,
    {
        if fuel == 0 {
            return Err(ResolveError::TooDeep);
        }
        match self.position(handle) {
            None => Ok(None),
            Some(i) => {
                let entry = &self.definitions[i].1;
                if public && !entry.public {
                    Ok(None)
                } else {
                    match &entry.definition {
                        DatabaseDefinition::Alias(source) => self.lookup_with(source, false, fuel - 1),
                        d => Ok(Some(d)),
                    }
                }
            },
        }
    }

    /// The number of steps in which aliases are followed: one more than the number of
    /// entries, enough for every chain of aliases that does not come back to an entry.
    pub fn alias_depth(&self) -> (r: u64)
        ensures
            r as nat == alias_depth(self@.len()),
    {
        let n = self.definitions.len();
        if n as u64 >= u64::MAX {
            u64::MAX
        } else {
            n as u64 + 1
        }
    }

    /// The definition that `handle` names, following aliases; see [`lookup_entry`] and
    /// [`alias_depth`].
    pub fn lookup(&self, handle: &Handle, public: bool) -> (r: Result<Option<&DatabaseDefinition<R>>, ResolveError>)
        requires
            self.wf(),
        ensures
            lookup_view(r) == lookup_entry(self@, handle@, public, alias_depth(self@.len())),
    {
        self.lookup_with(handle, public, self.alias_depth())
    }

    /// The handle that `handle` stands for, in at most `fuel` steps; see [`resolve_entry`].
    pub fn resolve_with(&self, handle: &Handle, public: bool, fuel: u64) -> (r: Result<Option<Handle>, ResolveError>)
        requires
            self.wf(),
        ensures
            resolved_view(r) == resolve_entry(self@, handle@, public, fuel as nat),
        decreases fuel,
    {
        if fuel == 0 {
            return Err(ResolveError::TooDeep);
        }
        match self.position(handle) {
            None => Ok(None),
            Some(i) => {
                let entry = &self.definitions[i].1;
                if public && !entry.public {
                    Ok(None)
                } else {
                    match &entry.definition {
                        DatabaseDefinition::Alias(source) => self.resolve_with(source, false, fuel - 1),
                        _ => Ok(Some(handle.copy())),
                    }
                }
            },
        }
    }

    /// The handle that `handle` stands for, following aliases; see [`resolve_entry`] and
    /// [`alias_depth`].
    pub fn resolve(&self, handle: &Handle, public: bool) -> (r: Result<Option<Handle>, ResolveError>)
        requires
            self.wf(),
        ensures
            resolved_view(r) == resolve_entry(self@, handle@, public, alias_depth(self@.len())),
    {
        self.resolve_with(handle, public, self.alias_depth())
    }

    /// Whether `handle` has a public entry.
    pub fn exports(&self, handle: &Handle) -> (r: bool)
        requires
            self.wf(),
        ensures
            r == (map_get(self@, handle@) matches Some(e) && e.public),
    {
        match self.position(handle) {
            None => false,
            Some(i) => self.definitions[i].1.public,
        }
    }

    /// This database with the entries of `library` added, each replacing the entry of the
    /// same handle; see [`merged`].
    pub fn merge(self, library: Database<R>) -> (r: Database<R>)
        requires
            self.wf(),
        ensures
            r@ == merged(self@, library@),
            r.wf(),
    {
        let ghost lib = library@;
        let mut db = self;
        let mut rest = library.definitions;
        let n = rest.len();
        let mut k: usize = 0;
        proof {
            assert(entry_views(rest@) =~= lib.subrange(0, n as int));
            assert(lib.subrange(0, 0) =~= Seq::<(HandleView, EntryView<R>)>::empty());
        }
        while k < n
            invariant
                0 <= k <= n,
                n == lib.len(),
                rest@.len() == n - k,
                entry_views(rest@) == lib.subrange(k as int, n as int),
                db.wf(),
                db@ == merged(self@, lib.subrange(0, k as int)),
            decreases n - k,
        {
            let ghost old_rest = rest@;
            let (h, e) = rest.remove(0);
            proof {
                let s = lib.subrange(0, k as int + 1);
                assert(s.drop_last() =~= lib.subrange(0, k as int));
                assert(entry_views(old_rest)[0] == lib[k as int]);
                assert(s.last() == (h@, e@));
                assert forall|i: int| 0 <= i < rest@.len() implies #[trigger] entry_views(rest@)[i] == lib.subrange(k as int + 1, n as int)[i] by {
                    assert(rest@[i] == old_rest[i + 1]);
                    assert(entry_views(old_rest)[i + 1] == lib.subrange(k as int, n as int)[i + 1]);
                }
                assert(entry_views(rest@) =~= lib.subrange(k as int + 1, n as int));
            }
            db.put(h, e);
            k = k + 1;
        }
        proof {
            assert(lib.subrange(0, n as int) =~= lib);
        }
        db
    }

    /// The entries of this database: each handle and its entry.
    pub fn entries(&self) -> (r: &Vec<(Handle, DatabaseEntry<R>)>)
        ensures
            entry_views(r@) == self@,
    {
        &self.definitions
    }
}

/// A private entry is hidden from a public lookup.
pub proof fn lemma_private_entries_are_hidden<R>(entries: Seq<(HandleView, EntryView<R>)>, h: HandleView, fuel: nat)
    requires
        fuel > 0,
        map_get(entries, h) matches Some(e) && !e.public,
    ensures
        lookup_entry(entries, h, true, fuel) == Ok::<Option<DefinitionView<R>>, ResolveErrorView>(None),
        resolve_entry(entries, h, true, fuel) == Ok::<Option<HandleView>, ResolveErrorView>(None),
{
}

/// A public entry looks the same from everywhere: a public lookup finds what a private one
/// finds.
pub proof fn lemma_public_entries_are_shared<R>(entries: Seq<(HandleView, EntryView<R>)>, h: HandleView, fuel: nat)
    requires
        map_get(entries, h) matches Some(e) && e.public,
    ensures
        lookup_entry(entries, h, true, fuel) == lookup_entry(entries, h, false, fuel),
        resolve_entry(entries, h, true, fuel) == resolve_entry(entries, h, false, fuel),
{
}

/// An alias names what its source names.
pub proof fn lemma_alias_follows_source<R>(entries: Seq<(HandleView, EntryView<R>)>, alias: HandleView, source: HandleView, fuel: nat)
    requires
        fuel > 0,
        map_get(entries, alias) matches Some(e) && e.definition == DefinitionView::<R>::Alias(source),
    ensures
        lookup_entry(entries, alias, false, fuel) == lookup_entry(entries, source, false, (fuel - 1) as nat),
        resolve_entry(entries, alias, false, fuel) == resolve_entry(entries, source, false, (fuel - 1) as nat),
{
}

/// Merging a library: a handle the library has takes the library's entry; any other handle
/// keeps its own.
pub proof fn lemma_merge_prefers_library<R>(entries: Seq<(HandleView, EntryView<R>)>, lib: Seq<(HandleView, EntryView<R>)>, h: HandleView)
    requires
        unique_map(entries),
        unique_map(lib),
    ensures
        unique_map(merged(entries, lib)),
        map_get(merged(entries, lib), h) == (if map_keys(lib).contains(h) { map_get(lib, h) } else { map_get(entries, h) }),
    decreases lib.len(),
{
    if lib.len() > 0 {
        let prefix = lib.drop_last();
        assert(map_keys(prefix) =~= map_keys(lib).drop_last());
        assert(unique_map(prefix)) by {
            assert(map_keys(prefix).no_duplicates());
        }
        lemma_merge_prefers_library(entries, prefix, h);
        lemma_map_get_insert(merged(entries, prefix), lib.last().0, lib.last().1, h);
        let k = lib.last().0;
        assert(map_keys(lib) =~= map_keys(prefix).push(k));
        if h == k {
            let i = lib.len() - 1;
            assert(map_keys(lib)[i] == k);
            lemma_unique_index_of(map_keys(lib), i);
        } else {
            assert(map_keys(lib).contains(h) <==> map_keys(prefix).contains(h)) by {
                if map_keys(lib).contains(h) {
                    let j = choose|j: int| 0 <= j < map_keys(lib).len() && map_keys(lib)[j] == h;
                    assert(j < prefix.len());
                    assert(map_keys(prefix)[j] == h);
                }
                if map_keys(prefix).contains(h) {
                    let j = choose|j: int| 0 <= j < map_keys(prefix).len() && map_keys(prefix)[j] == h;
                    assert(map_keys(lib)[j] == h);
                }
            }
            if map_keys(prefix).contains(h) {
                let j = map_keys(prefix).index_of(h);
                lemma_unique_index_of(map_keys(prefix), j);
                assert(map_keys(lib)[j] == h);
                lemma_unique_index_of(map_keys(lib), j);
            }
        }
    }
}


/// The rules given for `h` in `pairs`, in order.
pub open spec fn rules_for<R>(pairs: Seq<(HandleView, Seq<R>)>, h: HandleView) -> Seq<R>
    decreases pairs.len(),
{
    if pairs.len() == 0 {
        Seq::empty()
    } else {
        rules_for(pairs.drop_last(), h) + (if pairs.last().0 == h { pairs.last().1 } else { Seq::empty() })
    }
}

proof fn lemma_rules_for_absent<R>(pairs: Seq<(HandleView, Seq<R>)>, h: HandleView)
    requires
        !map_keys(pairs).contains(h),
    ensures
        rules_for(pairs, h) == Seq::<R>::empty(),
    decreases pairs.len(),
{
    if pairs.len() > 0 {
        let prefix = pairs.drop_last();
        assert(!map_keys(prefix).contains(h)) by {
            if map_keys(prefix).contains(h) {
                let j = choose|j: int| 0 <= j < map_keys(prefix).len() && map_keys(prefix)[j] == h;
                assert(map_keys(pairs)[j] == h);
            }
        }
        lemma_rules_for_absent(prefix, h);
        assert(map_keys(pairs)[pairs.len() - 1] == pairs.last().0);
        assert(rules_for(pairs, h) =~= Seq::<R>::empty());
    }
}

/// A database made from rules given in parts keeps, for each handle given, all the rules
/// given for it, in the order given; a handle not given has no entry.
pub proof fn lemma_grouped_rules<R>(pairs: Seq<(HandleView, Seq<R>)>, h: HandleView)
    ensures
        map_get(grouped(pairs), h) == (if map_keys(pairs).contains(h) { Some(rules_for(pairs, h)) } else { None }),
    decreases pairs.len(),
{
    if pairs.len() == 0 {
        assert(map_keys(grouped(pairs)) =~= Seq::<HandleView>::empty());
    } else {
        let prefix = pairs.drop_last();
        let k = pairs.last().0;
        lemma_grouped_rules(prefix, h);
        lemma_grouped_unique(prefix);
        let prev = grouped(prefix);
        let before = match map_get(prev, k) {
            Some(rules) => rules,
            None => Seq::empty(),
        };
        lemma_map_get_insert(prev, k, before + pairs.last().1, h);
        assert(map_keys(pairs) =~= map_keys(prefix).push(k));
        assert(map_keys(pairs).contains(h) <==> (map_keys(prefix).contains(h) || h == k)) by {
            if map_keys(pairs).contains(h) {
                let j = choose|j: int| 0 <= j < map_keys(pairs).len() && map_keys(pairs)[j] == h;
                if j < prefix.len() {
                    assert(map_keys(prefix)[j] == h);
                }
            }
            if map_keys(prefix).contains(h) {
                let j = choose|j: int| 0 <= j < map_keys(prefix).len() && map_keys(prefix)[j] == h;
                assert(map_keys(pairs)[j] == h);
            }
            if h == k {
                assert(map_keys(pairs)[pairs.len() - 1] == h);
            }
        }
        if h == k {
            lemma_grouped_rules(prefix, k);
            if !map_keys(prefix).contains(k) {
                lemma_rules_for_absent(prefix, k);
            }
            assert(rules_for(pairs, h) =~= before + pairs.last().1);
        } else {
            assert(rules_for(pairs, h) =~= rules_for(prefix, h));
        }
    }
}

} // verus!

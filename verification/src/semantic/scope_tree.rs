//! The tree of scopes: the global scope and one scope for the body of each
//! loop. A name is looked up in a scope and then in its ancestors.
use vstd::prelude::*;

use crate::common::types::TypeName;
use crate::semantic::types::{Context, SymbolInfo};

verus! {

pub type SymbolKey = usize;

pub type ScopeKey = usize;

/// A declared name.
#[derive(Debug)]
pub struct Symbol {
    pub key: SymbolKey,
    pub name: String,
    pub scope_key: ScopeKey,
    pub type_of: TypeName,
    pub is_mutable: bool,
}

/// The mathematical content of a [`Symbol`], without its name.
pub struct SpecSymbol {
    pub key: SymbolKey,
    pub scope_key: ScopeKey,
    pub type_of: TypeName,
    pub is_mutable: bool,
}

impl SpecSymbol {
    /// What the type checker reads of a symbol.
    pub open spec fn info(self) -> SymbolInfo {
        SymbolInfo { type_of: self.type_of, is_mutable: self.is_mutable }
    }
}

impl View for Symbol {
    type V = SpecSymbol;

    open spec fn view(&self) -> SpecSymbol {
        SpecSymbol {
            key: self.key,
            scope_key: self.scope_key,
            type_of: self.type_of,
            is_mutable: self.is_mutable,
        }
    }
}

/// The symbols of a scope or in sight from it, by name.
pub type Symbols = Map<Seq<char>, SpecSymbol>;

/// What the type checker reads of the symbols in `symbols`.
pub open spec fn infos(symbols: Symbols) -> Context {
    Map::new(|name: Seq<char>| symbols.contains_key(name), |name: Seq<char>| symbols[name].info())
}

impl Clone for Symbol {
    fn clone(&self) -> (copy: Self)
        ensures
            copy == *self,
    {
        Symbol {
            key: self.key,
            name: self.name.clone(),
            scope_key: self.scope_key,
            type_of: self.type_of,
            is_mutable: self.is_mutable,
        }
    }
}

/// The names that a list of symbols binds: where a name occurs twice, the
/// later symbol counts.
pub open spec fn bindings(symbols: Seq<Symbol>) -> Symbols
    decreases symbols.len(),
{
    if symbols.len() == 0 {
        Map::empty()
    } else {
        bindings(symbols.drop_last()).insert(symbols.last().name@, symbols.last()@)
    }
}

/// A scope: its parent and the names declared directly in it. The global
/// scope is its own parent.
#[derive(Debug)]
pub struct Scope {
    pub key: ScopeKey,
    pub parent: ScopeKey,
    pub children: Vec<ScopeKey>,
    pub symbols: Vec<Symbol>,
}

/// The mathematical content of a [`Scope`].
pub struct SpecScope {
    pub parent: ScopeKey,
    pub children: Seq<ScopeKey>,
    pub symbols: Symbols,
}

/// Whether two scopes have the same parent and bind the same names to the
/// same symbols.
pub open spec fn same_bindings(a: SpecScope, b: SpecScope) -> bool {
    a.parent == b.parent && a.symbols == b.symbols
}

impl View for Scope {
    type V = SpecScope;

    open spec fn view(&self) -> SpecScope {
        SpecScope {
            parent: self.parent,
            children: self.children@,
            symbols: bindings(self.symbols@),
        }
    }
}

impl Scope {
    /// The parent of this scope, or `None` for a scope that is its own
    /// parent.
    pub fn get_parent_key(&self) -> (parent: Option<ScopeKey>)
        ensures
            parent == (if self.key == self@.parent {
                None
            } else {
                Some(self@.parent)
            }),
    {
        if self.key == self.parent {
            None
        } else {
            Some(self.parent)
        }
    }
}

/// Whether the scopes form a tree rooted in scope 0: every other scope has
/// a parent that was made before it.
pub open spec fn is_tree(scopes: Seq<SpecScope>) -> bool {
    &&& scopes.len() > 0
    &&& scopes[0].parent == 0
    &&& forall|k: int| 0 < k < scopes.len() ==> (#[trigger] scopes[k]).parent < k
}

/// The symbols in sight from scope `k`: those of the scope itself and
/// those of its ancestors; the nearest binding of a name counts.
pub open spec fn visible_symbols(scopes: Seq<SpecScope>, k: int) -> Symbols
    decreases k,
{
    if 0 < k < scopes.len() && scopes[k].parent < k {
        visible_symbols(scopes, scopes[k].parent as int).union_prefer_right(scopes[k].symbols)
    } else if 0 <= k < scopes.len() {
        scopes[k].symbols
    } else {
        Map::empty()
    }
}

/// The names in sight from scope `k`, each with its type and whether it
/// may be assigned to.
pub open spec fn visible(scopes: Seq<SpecScope>, k: int) -> Context {
    infos(visible_symbols(scopes, k))
}

/// The nearest scope, from `k` upwards, that binds `name`.
pub open spec fn defining_scope(scopes: Seq<SpecScope>, k: int, name: Seq<char>) -> Option<int>
    decreases k,
{
    if 0 <= k < scopes.len() && scopes[k].symbols.contains_key(name) {
        Some(k)
    } else if 0 < k < scopes.len() && scopes[k].parent < k {
        defining_scope(scopes, scopes[k].parent as int, name)
    } else {
        None
    }
}

/// Whether every symbol that some scope binds a name to has a key below
/// `bound`.
pub open spec fn keys_below(scopes: Seq<SpecScope>, bound: int) -> bool {
    forall|k: int, name: Seq<char>|
        0 <= k < scopes.len() && (#[trigger] scopes[k]).symbols.contains_key(name) ==> (
        #[trigger] scopes[k].symbols[name]).key < bound
}

/// The scopes after the binding of `name` in scope `k` was set to
/// `symbol`.
pub open spec fn with_binding(
    scopes: Seq<SpecScope>,
    k: int,
    name: Seq<char>,
    symbol: SpecSymbol,
) -> Seq<SpecScope> {
    scopes.update(k, SpecScope { symbols: scopes[k].symbols.insert(name, symbol), ..scopes[k] })
}

/// A name is in sight exactly when some scope on the way up binds it, and
/// what is seen is that scope's binding.
pub proof fn lemma_visible_defining(scopes: Seq<SpecScope>, k: int, name: Seq<char>)
    requires
        0 <= k < scopes.len(),
    ensures
        match defining_scope(scopes, k, name) {
            Some(d) => 0 <= d <= k && scopes[d].symbols.contains_key(name) && visible_symbols(
                scopes,
                k,
            ).contains_key(name) && visible_symbols(scopes, k)[name] == scopes[d].symbols[name]
                && visible(scopes, k).contains_key(name) && visible(scopes, k)[name]
                == scopes[d].symbols[name].info(),
            None => !visible_symbols(scopes, k).contains_key(name) && !visible(
                scopes,
                k,
            ).contains_key(name),
        },
    decreases k,
{
    if 0 < k && scopes[k].parent < k {
        lemma_visible_defining(scopes, scopes[k].parent as int, name);
    }
}

/// What is in sight from a scope depends only on the parents and the
/// bindings of the scopes up to it.
pub proof fn lemma_visible_frame(before: Seq<SpecScope>, after: Seq<SpecScope>, k: int)
    requires
        0 <= k < before.len() <= after.len(),
        forall|j: int| 0 <= j <= k ==> same_bindings(#[trigger] before[j], after[j]),
    ensures
        visible_symbols(after, k) == visible_symbols(before, k),
        visible(after, k) == visible(before, k),
    decreases k,
{
    if 0 < k && before[k].parent < k {
        lemma_visible_frame(before, after, before[k].parent as int);
    }
}

/// Binding a name in scope `k` itself adds it to what is in sight from `k`.
pub proof fn lemma_visible_declare(
    scopes: Seq<SpecScope>,
    k: int,
    name: Seq<char>,
    symbol: SpecSymbol,
)
    requires
        0 <= k < scopes.len(),
    ensures
        visible_symbols(with_binding(scopes, k, name, symbol), k) == visible_symbols(
            scopes,
            k,
        ).insert(name, symbol),
        visible(with_binding(scopes, k, name, symbol), k) == visible(scopes, k).insert(
            name,
            symbol.info(),
        ),
{
    let after = with_binding(scopes, k, name, symbol);
    if 0 < k && scopes[k].parent < k {
        lemma_visible_frame_below(scopes, after, k, scopes[k].parent as int);
    }
    assert(visible_symbols(after, k) =~= visible_symbols(scopes, k).insert(name, symbol));
    assert(visible(after, k) =~= visible(scopes, k).insert(name, symbol.info()));
}

/// What is in sight from a scope does not depend on the scopes made after
/// it.
pub proof fn lemma_visible_frame_below(
    before: Seq<SpecScope>,
    after: Seq<SpecScope>,
    changed: int,
    k: int,
)
    requires
        0 <= k < changed,
        k < before.len(),
        before.len() == after.len(),
        forall|j: int|
            0 <= j < before.len() && j != changed ==> same_bindings(#[trigger] before[j], after[j]),
    ensures
        visible_symbols(after, k) == visible_symbols(before, k),
        visible(after, k) == visible(before, k),
{
    lemma_visible_frame(before, after, k);
}

/// Changing the binding of `name` in the scope that defines it for `k`
/// changes what is in sight from `k` at that name only.
pub proof fn lemma_visible_rebind(
    scopes: Seq<SpecScope>,
    k: int,
    name: Seq<char>,
    symbol: SpecSymbol,
)
    requires
        0 <= k < scopes.len(),
        defining_scope(scopes, k, name) is Some,
    ensures
        visible_symbols(with_binding(scopes, defining_scope(scopes, k, name)->0, name, symbol), k)
            == visible_symbols(scopes, k).insert(name, symbol),
        visible(with_binding(scopes, defining_scope(scopes, k, name)->0, name, symbol), k)
            == visible(scopes, k).insert(name, symbol.info()),
    decreases k,
{
    let d = defining_scope(scopes, k, name)->0;
    let after = with_binding(scopes, d, name, symbol);
    lemma_visible_defining(scopes, k, name);
    if d == k {
        lemma_visible_declare(scopes, k, name, symbol);
    } else {
        let parent = scopes[k].parent as int;
        lemma_visible_rebind(scopes, parent, name, symbol);
        assert(after[k] == scopes[k]);
        assert(visible_symbols(after, k) =~= visible_symbols(scopes, k).insert(name, symbol));
        assert(visible(after, k) =~= visible(scopes, k).insert(name, symbol.info()));
    }
}

/// Changing the binding of `name` in the scope that defines it for `k`
/// leaves that scope the one that defines it.
pub proof fn lemma_defining_rebind(
    scopes: Seq<SpecScope>,
    k: int,
    name: Seq<char>,
    symbol: SpecSymbol,
)
    requires
        0 <= k < scopes.len(),
        defining_scope(scopes, k, name) is Some,
    ensures
        defining_scope(
            with_binding(scopes, defining_scope(scopes, k, name)->0, name, symbol),
            k,
            name,
        ) == defining_scope(scopes, k, name),
    decreases k,
{
    if !scopes[k].symbols.contains_key(name) {
        lemma_visible_defining(scopes, k, name);
        lemma_defining_rebind(scopes, scopes[k].parent as int, name, symbol);
    }
}

/// A scope under `parent` without children and without names.
pub open spec fn empty_scope(parent: ScopeKey) -> SpecScope {
    SpecScope { parent, children: Seq::empty(), symbols: Map::empty() }
}

/// The scopes after an empty scope was added under `parent`: the new scope
/// comes last, and its key is the last child of its parent.
pub open spec fn added_scope(scopes: Seq<SpecScope>, parent: ScopeKey) -> Seq<SpecScope> {
    scopes.update(
        parent as int,
        SpecScope {
            children: scopes[parent as int].children.push(scopes.len() as usize),
            ..scopes[parent as int]
        },
    ).push(empty_scope(parent))
}

/// The scopes of a program.
#[derive(Debug)]
pub struct ScopeTree {
    scopes: Vec<Scope>,
    next_symbol_id: SymbolKey,
}

impl View for ScopeTree {
    type V = Seq<SpecScope>;

    closed spec fn view(&self) -> Seq<SpecScope> {
        self.scopes@.map_values(|scope: Scope| scope@)
    }
}

/// Whether the list holds an entry for `name`.
pub open spec fn lists(names: Seq<(String, SymbolKey)>, name: Seq<char>) -> bool {
    exists|i: int| 0 <= i < names.len() && (#[trigger] names[i]).0@ == name
}

/// Whether `names` holds an entry for `name`.
fn has_name(names: &Vec<(String, SymbolKey)>, name: &String) -> (found: bool)
    ensures
        found == lists(names@, name@),
{
    let mut i: usize = 0;
    while i < names.len()
        invariant
            i <= names.len(),
            forall|j: int| 0 <= j < i ==> (#[trigger] names@[j]).0@ != name@,
        decreases names.len() - i,
    {
        if names[i].0 == *name {
            return true;
        }
        i += 1;
    }
    false
}

/// A symbol after which no symbol of the same name comes is what the list
/// binds its name to.
proof fn lemma_bindings_last(symbols: Seq<Symbol>, i: int)
    requires
        0 <= i < symbols.len(),
        forall|j: int| i < j < symbols.len() ==> symbols[j].name@ != symbols[i].name@,
    ensures
        bindings(symbols).contains_key(symbols[i].name@),
        bindings(symbols)[symbols[i].name@] == symbols[i]@,
    decreases symbols.len(),
{
    if i < symbols.len() - 1 {
        lemma_bindings_last(symbols.drop_last(), i);
    }
}

/// Whether every symbol in the list has a key below `bound`.
spec fn stored_below(symbols: Seq<Symbol>, bound: int) -> bool {
    forall|i: int| 0 <= i < symbols.len() ==> (#[trigger] symbols[i]).key < bound
}

/// Where every symbol of a list has a key below `bound`, so has every
/// symbol that the list binds a name to.
proof fn lemma_bindings_below(symbols: Seq<Symbol>, bound: int, name: Seq<char>)
    requires
        stored_below(symbols, bound),
        bindings(symbols).contains_key(name),
    ensures
        bindings(symbols)[name].key < bound,
    decreases symbols.len(),
{
    if symbols.len() > 0 && symbols.last().name@ != name {
        lemma_bindings_below(symbols.drop_last(), bound, name);
    }
}

/// A name that a list of symbols binds is the name of one of them.
proof fn lemma_bindings_some(symbols: Seq<Symbol>, name: Seq<char>)
    requires
        bindings(symbols).contains_key(name),
    ensures
        exists|i: int| 0 <= i < symbols.len() && (#[trigger] symbols[i]).name@ == name,
    decreases symbols.len(),
{
    if symbols.len() > 0 {
        if symbols.last().name@ == name {
            assert(symbols[symbols.len() - 1].name@ == name);
        } else {
            lemma_bindings_some(symbols.drop_last(), name);
            let i = choose|i: int|
                0 <= i < symbols.drop_last().len() && (#[trigger] symbols.drop_last()[i]).name@
                    == name;
            assert(symbols[i].name@ == name);
        }
    }
}

/// The last place in `symbols` that holds `name`.
fn find_symbol(symbols: &Vec<Symbol>, name: &String) -> (found: Option<usize>)
    ensures
        match found {
            Some(i) => i < symbols.len() && symbols[i as int].name@ == name@ && bindings(
                symbols@,
            ).contains_key(name@) && bindings(symbols@)[name@] == symbols[i as int]@
                && forall|j: int| i < j < symbols.len() ==> symbols[j].name@ != name@,
            None => !bindings(symbols@).contains_key(name@),
        },
{
    let mut i = symbols.len();
    assert(symbols@.take(i as int) =~= symbols@);
    while i > 0
        invariant
            i <= symbols.len(),
            forall|j: int| i <= j < symbols.len() ==> symbols[j].name@ != name@,
            bindings(symbols@).contains_key(name@) == bindings(
                symbols@.take(i as int),
            ).contains_key(name@),
            bindings(symbols@).contains_key(name@) ==> bindings(symbols@)[name@] == bindings(
                symbols@.take(i as int),
            )[name@],
        decreases i,
    {
        i -= 1;
        assert(symbols@.take(i + 1).drop_last() =~= symbols@.take(i as int));
        if symbols[i].name == *name {
            return Some(i);
        }
    }
    None
}

/// Setting the flag of the last symbol named `name` rebinds that name.
proof fn lemma_bindings_update(symbols: Seq<Symbol>, i: int, changed: Symbol)
    requires
        0 <= i < symbols.len(),
        changed.name@ == symbols[i].name@,
        forall|j: int| i < j < symbols.len() ==> symbols[j].name@ != symbols[i].name@,
    ensures
        bindings(symbols.update(i, changed)) == bindings(symbols).insert(changed.name@, changed@),
    decreases symbols.len(),
{
    let after = symbols.update(i, changed);
    if i == symbols.len() - 1 {
        assert(after.drop_last() =~= symbols.drop_last());
        assert(bindings(after) =~= bindings(symbols).insert(changed.name@, changed@));
    } else {
        lemma_bindings_update(symbols.drop_last(), i, changed);
        assert(after.drop_last() =~= symbols.drop_last().update(i, changed));
        assert(bindings(after) =~= bindings(symbols).insert(changed.name@, changed@));
    }
}

impl ScopeTree {
    /// What every tree keeps true of itself: the scopes form a tree and each
    /// is stored under its key.
    pub closed spec fn well_formed(&self) -> bool {
        &&& is_tree(self@)
        &&& forall|k: int| 0 <= k < self.scopes.len() ==> (#[trigger] self.scopes[k]).key == k
        &&& self.next_symbol_id < usize::MAX ==> forall|k: int|
            0 <= k < self.scopes.len() ==> stored_below(
                (#[trigger] self.scopes[k]).symbols@,
                self.next_symbol_id as int,
            )
    }

    /// The key that the next symbol gets.
    pub closed spec fn next_symbol_key(&self) -> SymbolKey {
        self.next_symbol_id
    }

    /// A well-formed tree is a tree.
    pub proof fn lemma_is_tree(&self)
        requires
            self.well_formed(),
        ensures
            is_tree(self@),
    {
    }

    /// Until the keys run out, every symbol of the tree has a key below
    /// the key that the next symbol gets.
    pub proof fn lemma_keys_below(&self)
        requires
            self.well_formed(),
        ensures
            self.next_symbol_key() < usize::MAX ==> keys_below(
                self@,
                self.next_symbol_key() as int,
            ),
    {
        if self.next_symbol_id < usize::MAX {
            assert forall|k: int, name: Seq<char>|
                0 <= k < self@.len() && (#[trigger] self@[k]).symbols.contains_key(
                    name,
                ) implies (#[trigger] self@[k].symbols[name]).key < self.next_symbol_id by {
                assert(stored_below(self.scopes[k].symbols@, self.next_symbol_id as int));
                lemma_bindings_below(self.scopes[k].symbols@, self.next_symbol_id as int, name);
            }
        }
    }

    fn next_scope_id(&self) -> (key: ScopeKey)
        ensures
            key == self@.len(),
    {
        self.scopes.len()
    }

    fn next_symbol_id(&mut self) -> (key: SymbolKey)
        ensures
            key == old(self).next_symbol_id,
            final(self).scopes == old(self).scopes,
            final(self).next_symbol_id == (if key < usize::MAX {
                key + 1
            } else {
                key as int
            }),
    {
        let id = self.next_symbol_id;
        if id < usize::MAX {
            self.next_symbol_id = id + 1;
        }
        id
    }

    /// The parent of `scope`, or `None` for the global scope.
    pub fn get_parent(&self, scope: &Scope) -> (parent: Option<&Scope>)
        requires
            self.well_formed(),
            scope@.parent < self@.len(),
        ensures
            match parent {
                Some(found) => scope.key != scope@.parent && found.key == scope@.parent
                    && found@ == self@[scope@.parent as int],
                None => scope.key == scope@.parent,
            },
    {
        match scope.get_parent_key() {
            Some(key) => Some(&self.scopes[key]),
            None => None,
        }
    }

    /// The scope that every other scope descends from.
    pub fn get_global_scope(&self) -> (global: &Scope)
        requires
            self.well_formed(),
        ensures
            global.key == 0,
            global@ == self@[0],
    {
        &self.scopes[0]
    }

    /// The nearest symbol named `symbol_name` in sight from `scope`.
    pub fn get_symbol(&self, scope: ScopeKey, symbol_name: &str) -> (symbol: Option<&Symbol>)
        requires
            self.well_formed(),
            scope < self@.len(),
        ensures
            match symbol {
                Some(found) => visible_symbols(self@, scope as int).contains_key(symbol_name@)
                    && found@ == visible_symbols(self@, scope as int)[symbol_name@] && found.name@
                    == symbol_name@,
                None => !visible_symbols(self@, scope as int).contains_key(symbol_name@),
            },
    {
        let name = String::from_str(symbol_name);
        let mut k = scope;
        loop
            invariant
                self.well_formed(),
                k <= scope < self@.len(),
                name@ == symbol_name@,
                defining_scope(self@, scope as int, name@) == defining_scope(
                    self@,
                    k as int,
                    name@,
                ),
            decreases k,
        {
            proof {
                lemma_visible_defining(self@, scope as int, name@);
            }
            match find_symbol(&self.scopes[k].symbols, &name) {
                Some(i) => {
                    return Some(&self.scopes[k].symbols[i]);
                },
                None => {},
            }
            match self.scopes[k].get_parent_key() {
                Some(parent) => {
                    k = parent;
                },
                None => {
                    return None;
                },
            }
        }
    }

    /// The names in sight from `scope_key`, each once and in no particular
    /// order, with the key of the nearest symbol of that name.
    pub fn get_symbols_in_scope(&self, scope_key: ScopeKey) -> (names: Vec<(String, SymbolKey)>)
        requires
            self.well_formed(),
            scope_key < self@.len(),
        ensures
            forall|name: Seq<char>|
                lists(names@, name) <==> visible_symbols(self@, scope_key as int).contains_key(
                    name,
                ),
            forall|i: int|
                0 <= i < names@.len() ==> (#[trigger] names@[i]).1 == visible_symbols(
                    self@,
                    scope_key as int,
                )[names@[i].0@].key,
            forall|i: int, j: int|
                0 <= i < j < names@.len() ==> (#[trigger] names@[i]).0@ != (#[trigger] names@[j]).0@,
    {
        let mut names: Vec<(String, SymbolKey)> = Vec::new();
        let mut k = scope_key;
        loop
            invariant
                self.well_formed(),
                k <= scope_key < self@.len(),
                forall|i: int|
                    0 <= i < names@.len() ==> visible_symbols(
                        self@,
                        scope_key as int,
                    ).contains_key((#[trigger] names@[i]).0@) && names@[i].1 == visible_symbols(
                        self@,
                        scope_key as int,
                    )[names@[i].0@].key,
                forall|i: int, j: int|
                    0 <= i < j < names@.len() ==> (#[trigger] names@[i]).0@ != (
                    #[trigger] names@[j]).0@,
                forall|name: Seq<char>|
                    !lists(names@, name) ==> defining_scope(self@, scope_key as int, name)
                        == defining_scope(self@, k as int, name),
            decreases k,
        {
            let symbols = &self.scopes[k].symbols;
            let mut j = symbols.len();
            while j > 0
                invariant
                    self.well_formed(),
                    k <= scope_key < self@.len(),
                    symbols == &self.scopes[k as int].symbols,
                    j <= symbols.len(),
                    forall|i: int|
                        0 <= i < names@.len() ==> visible_symbols(
                            self@,
                            scope_key as int,
                        ).contains_key((#[trigger] names@[i]).0@) && names@[i].1
                            == visible_symbols(self@, scope_key as int)[names@[i].0@].key,
                    forall|i: int, j: int|
                        0 <= i < j < names@.len() ==> (#[trigger] names@[i]).0@ != (
                        #[trigger] names@[j]).0@,
                    forall|name: Seq<char>|
                        !lists(names@, name) ==> defining_scope(self@, scope_key as int, name)
                            == defining_scope(self@, k as int, name),
                    forall|i: int| j <= i < symbols.len() ==> lists(names@, (#[trigger] symbols[i]).name@),
                decreases j,
            {
                j -= 1;
                let symbol = &symbols[j];
                let ghost before = names@;
                if !has_name(&names, &symbol.name) {
                    proof {
                        lemma_bindings_last(symbols@, j as int);
                        lemma_visible_defining(self@, scope_key as int, symbol.name@);
                        lemma_visible_defining(self@, k as int, symbol.name@);
                    }
                    names.push((symbol.name.clone(), symbol.key));
                    proof {
                        assert forall|name: Seq<char>| !lists(names@, name) implies defining_scope(
                            self@,
                            scope_key as int,
                            name,
                        ) == defining_scope(self@, k as int, name) by {
                            if lists(before, name) {
                                let i = choose|i: int|
                                    0 <= i < before.len() && (#[trigger] before[i]).0@ == name;
                                assert(names@[i].0@ == name);
                            }
                        }
                        assert forall|i: int| j <= i < symbols.len() implies lists(
                            names@,
                            (#[trigger] symbols[i]).name@,
                        ) by {
                            if i == j {
                                assert(names@[before.len() as int].0@ == symbol.name@);
                            } else {
                                let at = choose|at: int|
                                    0 <= at < before.len() && (#[trigger] before[at]).0@
                                        == symbols[i].name@;
                                assert(names@[at].0@ == symbols[i].name@);
                            }
                        }
                    }
                }
            }
            proof {
                assert forall|name: Seq<char>| !lists(names@, name) implies !bindings(
                    symbols@,
                ).contains_key(name) by {
                    if bindings(symbols@).contains_key(name) {
                        lemma_bindings_some(symbols@, name);
                    }
                }
            }
            proof {
                assert(self@[k as int].parent <= k);
            }
            match self.scopes[k].get_parent_key() {
                Some(parent) => {
                    k = parent;
                },
                None => {
                    proof {
                        assert forall|name: Seq<char>|
                            visible_symbols(self@, scope_key as int).contains_key(
                                name,
                            ) implies lists(names@, name) by {
                            lemma_visible_defining(self@, scope_key as int, name);
                        }
                    }
                    return names;
                },
            }
        }
    }

    /// Sets whether the nearest symbol named `symbol_name` in sight from
    /// `scope` may be assigned to. Returns whether there is such a symbol.
    pub fn set_mutable(&mut self, scope: ScopeKey, symbol_name: &str, is_mutable: bool) -> (found:
        bool)
        requires
            old(self).well_formed(),
            scope < old(self)@.len(),
        ensures
            final(self).well_formed(),
            final(self).next_symbol_key() == old(self).next_symbol_key(),
            match defining_scope(old(self)@, scope as int, symbol_name@) {
                Some(d) => found && final(self)@ == with_binding(
                    old(self)@,
                    d,
                    symbol_name@,
                    SpecSymbol { is_mutable, ..old(self)@[d].symbols[symbol_name@] },
                ),
                None => !found && final(self)@ == old(self)@,
            },
    {
        let name = String::from_str(symbol_name);
        let mut k = scope;
        loop
            invariant
                *self == *old(self),
                self.well_formed(),
                k <= scope < self@.len(),
                name@ == symbol_name@,
                defining_scope(self@, scope as int, name@) == defining_scope(
                    self@,
                    k as int,
                    name@,
                ),
            decreases k,
        {
            match find_symbol(&self.scopes[k].symbols, &name) {
                Some(i) => {
                    let ghost before = self.scopes[k as int].symbols@;
                    self.scopes[k].symbols[i].is_mutable = is_mutable;
                    proof {
                        let changed = self.scopes[k as int].symbols@[i as int];
                        assert(self.scopes[k as int].symbols@ =~= before.update(i as int, changed));
                        lemma_bindings_update(before, i as int, changed);
                        assert(self@ =~= with_binding(old(self)@, k as int, name@, changed@));
                    }
                    return true;
                },
                None => {},
            }
            match self.scopes[k].get_parent_key() {
                Some(parent) => {
                    k = parent;
                },
                None => {
                    return false;
                },
            }
        }
    }

    /// Adds an empty scope under `parent_key` and returns its key.
    pub fn add_new_scope(&mut self, parent_key: ScopeKey) -> (key: ScopeKey)
        requires
            old(self).well_formed(),
            parent_key < old(self)@.len(),
        ensures
            final(self).well_formed(),
            final(self).next_symbol_key() == old(self).next_symbol_key(),
            key == old(self)@.len(),
            final(self)@ == added_scope(old(self)@, parent_key),
    {
        let key = self.next_scope_id();
        self.scopes[parent_key].children.push(key);
        let scope = Scope { key, symbols: Vec::new(), children: Vec::new(), parent: parent_key };
        self.scopes.push(scope);
        proof {
            assert(self@ =~= added_scope(old(self)@, parent_key));
        }
        key
    }

    /// Declares `name` in the scope `scope_key` and returns the key of the
    /// new symbol. A symbol of the same name declared before in that scope is
    /// no longer found.
    ///
    /// Keys are handed out in ascending order from 0, so the new key is one
    /// that no symbol of the tree has. Only a tree that has handed out
    /// `usize::MAX` keys goes on with the key `usize::MAX`.
    pub fn define_symbol(
        &mut self,
        scope_key: ScopeKey,
        name: &str,
        type_of: TypeName,
        is_mutable: bool,
    ) -> (key: SymbolKey)
        requires
            old(self).well_formed(),
            scope_key < old(self)@.len(),
        ensures
            final(self).well_formed(),
            key == old(self).next_symbol_key(),
            final(self).next_symbol_key() == (if key < usize::MAX {
                key + 1
            } else {
                key as int
            }),
            final(self)@ == with_binding(
                old(self)@,
                scope_key as int,
                name@,
                SpecSymbol { key, scope_key, type_of, is_mutable },
            ),
            key < usize::MAX ==> keys_below(old(self)@, key as int),
    {
        proof {
            self.lemma_keys_below();
        }
        let key = self.next_symbol_id();
        let symbol = Symbol { key, scope_key, name: String::from_str(name), type_of, is_mutable };
        let ghost before = self.scopes[scope_key as int].symbols@;
        self.scopes[scope_key].symbols.push(symbol);
        proof {
            assert(self.scopes[scope_key as int].symbols@.drop_last() =~= before);
            assert(self@ =~= with_binding(
                old(self)@,
                scope_key as int,
                name@,
                SpecSymbol { key, scope_key, type_of, is_mutable },
            ));
        }
        key
    }

    /// A tree that holds the empty global scope, whose key is 0.
    pub fn new() -> (tree: ScopeTree)
        ensures
            tree.well_formed(),
            tree.next_symbol_key() == 0,
            tree@ == seq![empty_scope(0)],
    {
        let mut scopes: Vec<Scope> = Vec::new();
        scopes.push(Scope { key: 0, symbols: Vec::new(), children: Vec::new(), parent: 0 });
        let tree = ScopeTree { scopes, next_symbol_id: 0 };
        assert(tree@ =~= seq![empty_scope(0)]);
        tree
    }
}

} // verus!

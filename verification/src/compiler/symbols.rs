//! The symbol registry: a stack of scopes, each numbering its names in the
//! order in which they were registered. The bottom scope is the global one.

use crate::error::CompileError;
use crate::text::str_eq;
use vstd::prelude::*;

verus! {

/// The kind of a scope: the bottom one is global, every other one local.
#[derive(Debug, Clone, Copy, PartialEq, Eq, Structural)]
pub enum Scope {
    GLOBAL,
    LOCAL,
}

/// A name with the kind of its scope and its slot in that scope.
#[derive(Debug)]
pub struct Symbol {
    pub id: String,
    pub scope: Scope,
    pub index: u16,
}

/// What a symbol is.
pub struct SymbolView {
    pub name: Seq<char>,
    pub scope: Scope,
    pub index: u16,
}

impl View for Symbol {
    type V = SymbolView;

    open spec fn view(&self) -> SymbolView {
        SymbolView { name: self.id@, scope: self.scope, index: self.index }
    }
}

/// The names of one scope, in the order of their slots.
pub type Names = Seq<Seq<char>>;

/// The most names that one scope can hold.
pub const MAX_SYMBOLS: usize = 65536;

/// The kind of the scope at a depth: the bottom scope is global, every other
/// one local.
pub open spec fn scope_at(depth: int) -> Scope {
    if depth == 0 {
        Scope::GLOBAL
    } else {
        Scope::LOCAL
    }
}

/// A stack of scopes is valid when it holds the global scope, and no scope
/// holds a name twice or more names than slots can number.
pub open spec fn valid_scopes(scopes: Seq<Names>) -> bool {
    &&& scopes.len() >= 1
    &&& forall|i: int| 0 <= i < scopes.len() ==> (#[trigger] scopes[i]).no_duplicates()
    &&& forall|i: int| 0 <= i < scopes.len() ==> (#[trigger] scopes[i]).len() <= MAX_SYMBOLS
}

/// The symbol of a name in the scope at a depth, if the scope holds the name.
pub open spec fn find_in(names: Names, depth: int, name: Seq<char>) -> Option<SymbolView> {
    if names.contains(name) {
        Some(SymbolView { name, scope: scope_at(depth), index: names.index_of(name) as u16 })
    } else {
        None
    }
}

/// What a name resolves to: its symbol in the topmost scope that holds it.
pub open spec fn resolve(scopes: Seq<Names>, name: Seq<char>) -> Option<SymbolView>
    decreases scopes.len(),
{
    if scopes.len() == 0 {
        None
    } else {
        match find_in(scopes.last(), scopes.len() - 1, name) {
            Some(symbol) => Some(symbol),
            None => resolve(scopes.drop_last(), name),
        }
    }
}

/// The scopes after a name was registered in the top scope: unchanged where
/// the scope holds the name already, else with the name in the next free slot.
pub open spec fn with_name(scopes: Seq<Names>, name: Seq<char>) -> Seq<Names> {
    if scopes.last().contains(name) {
        scopes
    } else {
        scopes.update(scopes.len() - 1, scopes.last().push(name))
    }
}

/// Whether a name can be registered: the top scope holds it already, or has
/// a free slot for it.
pub open spec fn can_register(scopes: Seq<Names>, name: Seq<char>) -> bool {
    scopes.last().contains(name) || scopes.last().len() < MAX_SYMBOLS
}

/// In a scope without duplicates a name stands at one position only.
pub proof fn lemma_index_of_unique(names: Names, name: Seq<char>, at: int)
    requires
        names.no_duplicates(),
        0 <= at < names.len(),
        names[at] == name,
    ensures
        names.contains(name),
        names.index_of(name) == at,
{
    assert(names.contains(name));
    let found = names.index_of(name);
    assert(0 <= found < names.len() && names[found] == name);
}

/// Registering a name keeps the scopes valid.
pub proof fn lemma_with_name_valid(scopes: Seq<Names>, name: Seq<char>)
    requires
        valid_scopes(scopes),
        can_register(scopes, name),
    ensures
        valid_scopes(with_name(scopes, name)),
        with_name(scopes, name).len() == scopes.len(),
{
    let after = with_name(scopes, name);
    if !scopes.last().contains(name) {
        let top = scopes.last().push(name);
        assert(top.no_duplicates()) by {
            assert forall|i: int, j: int| 0 <= i < top.len() && 0 <= j < top.len() && i != j implies top[i]
                != top[j] by {
                if i == top.len() - 1 {
                    assert(scopes.last()[j] == top[j]);
                    assert(scopes.last().contains(top[j]));
                } else if j == top.len() - 1 {
                    assert(scopes.last()[i] == top[i]);
                    assert(scopes.last().contains(top[i]));
                } else {
                    assert(scopes.last()[i] == top[i]);
                    assert(scopes.last()[j] == top[j]);
                }
            }
        }
        assert forall|i: int| 0 <= i < after.len() implies (#[trigger] after[i]).no_duplicates()
            && after[i].len() <= MAX_SYMBOLS by {
            if i < scopes.len() - 1 {
                assert(after[i] == scopes[i]);
            }
        }
    }
}

/// The stack of scopes.
pub struct SymbolRegistry {
    registry: Vec<Vec<Symbol>>,
}

/// The names of the symbols of one scope.
pub open spec fn names_of(symbols: Seq<Symbol>) -> Names {
    Seq::new(symbols.len(), |i: int| symbols[i].id@)
}

impl SymbolRegistry {
    /// The names of each scope, bottom scope first.
    pub closed spec fn scopes(&self) -> Seq<Names> {
        Seq::new(self.registry@.len(), |i: int| names_of(self.registry@[i]@))
    }

    /// The registry is well formed: its scopes are valid, and each symbol
    /// holds the slot at which it stands and the kind of its scope.
    pub closed spec fn wf(&self) -> bool {
        &&& valid_scopes(self.scopes())
        &&& forall|i: int, j: int|
            0 <= i < self.registry@.len() && 0 <= j < self.registry@[i]@.len() ==> {
                &&& (#[trigger] self.registry@[i]@[j]).index == j
                &&& self.registry@[i]@[j].scope == scope_at(i)
            }
    }

    /// Valid scopes are not empty.
    pub proof fn lemma_wf_valid(&self)
        requires
            self.wf(),
        ensures
            valid_scopes(self.scopes()),
    {
    }

    /// A registry that holds the empty global scope.
    pub fn new() -> (reg: SymbolRegistry)
        ensures
            reg.wf(),
            reg.scopes() == seq![Seq::<Seq<char>>::empty()],
    {
        let mut registry: Vec<Vec<Symbol>> = Vec::new();
        registry.push(Vec::new());
        let reg = SymbolRegistry { registry };
        assert(reg.scopes() =~= seq![Seq::<Seq<char>>::empty()]) by {
            assert(names_of(reg.registry@[0]@) =~= Seq::<Seq<char>>::empty());
        }
        reg
    }

    /// Opens a new, empty scope on top.
    pub fn enter_scope(&mut self)
        requires
            old(self).wf(),
        ensures
            final(self).wf(),
            final(self).scopes() == old(self).scopes().push(Seq::<Seq<char>>::empty()),
    {
        self.registry.push(Vec::new());
        proof {
            let after = self.scopes();
            let before = old(self).scopes();
            assert(names_of(self.registry@[self.registry@.len() - 1]@) =~= Seq::<
                Seq<char>,
            >::empty());
            assert(after =~= before.push(Seq::<Seq<char>>::empty())) by {
                assert forall|i: int| 0 <= i < after.len() implies after[i] == before.push(
                    Seq::<Seq<char>>::empty(),
                )[i] by {
                    if i < before.len() {
                        assert(self.registry@[i] == old(self).registry@[i]);
                    }
                }
            }
            assert forall|i: int| 0 <= i < after.len() implies (#[trigger] after[i]).no_duplicates()
                && after[i].len() <= MAX_SYMBOLS by {
                if i < before.len() {
                    assert(after[i] == before[i]);
                }
            }
            assert forall|i: int, j: int|
                0 <= i < self.registry@.len() && 0 <= j < self.registry@[i]@.len() implies {
                &&& (#[trigger] self.registry@[i]@[j]).index == j
                &&& self.registry@[i]@[j].scope == scope_at(i)
            } by {
                assert(self.registry@[i] == old(self).registry@[i]);
            }
        }
    }

    /// Closes the top scope. The global scope stays: closing it changes
    /// nothing.
    pub fn exit_scope(&mut self)
        requires
            old(self).wf(),
        ensures
            final(self).wf(),
            final(self).scopes() == if old(self).scopes().len() > 1 {
                old(self).scopes().drop_last()
            } else {
                old(self).scopes()
            },
    {
        if self.registry.len() > 1 {
            self.registry.pop();
            proof {
                let after = self.scopes();
                let before = old(self).scopes();
                assert(after =~= before.drop_last()) by {
                    assert forall|i: int| 0 <= i < after.len() implies after[i]
                        == before.drop_last()[i] by {
                        assert(self.registry@[i] == old(self).registry@[i]);
                    }
                }
                assert forall|i: int| 0 <= i < after.len() implies (
                #[trigger] after[i]).no_duplicates() && after[i].len() <= MAX_SYMBOLS by {
                    assert(after[i] == before[i]);
                }
                assert forall|i: int, j: int|
                    0 <= i < self.registry@.len() && 0 <= j < self.registry@[i]@.len() implies {
                    &&& (#[trigger] self.registry@[i]@[j]).index == j
                    &&& self.registry@[i]@[j].scope == scope_at(i)
                } by {
                    assert(self.registry@[i] == old(self).registry@[i]);
                }
            }
        }
    }

    /// The position of a name in one scope.
    fn find(symbols: &Vec<Symbol>, id: &str) -> (at: Option<usize>)
        ensures
            match at {
                Some(j) => j < symbols@.len() && names_of(symbols@)[j as int] == id@,
                None => !names_of(symbols@).contains(id@),
            },
    {
        let mut j: usize = 0;
        while j < symbols.len()
            invariant
                j <= symbols@.len(),
                forall|k: int| 0 <= k < j ==> names_of(symbols@)[k] != id@,
            decreases symbols@.len() - j,
        {
            if str_eq(symbols[j].id.as_str(), id) {
                return Some(j);
            }
            j += 1;
        }
        None
    }

    /// Registers a name in the top scope and returns its symbol: the one it
    /// has there already, or a new one in the next free slot.
    pub fn register(&mut self, id: &str) -> (r: Result<Symbol, CompileError>)
        requires
            old(self).wf(),
        ensures
            final(self).wf(),
            match r {
                Ok(symbol) => {
                    &&& can_register(old(self).scopes(), id@)
                    &&& final(self).scopes() == with_name(old(self).scopes(), id@)
                    &&& Some(symbol@) == find_in(
                        final(self).scopes().last(),
                        final(self).scopes().len() - 1,
                        id@,
                    )
                },
                Err(e) => {
                    &&& !can_register(old(self).scopes(), id@)
                    &&& e == CompileError::TooManySymbols
                    &&& final(self).scopes() == old(self).scopes()
                },
            },
    {
        let top = self.registry.len() - 1;
        let ghost before = self.scopes();
        assert(before.last() == names_of(self.registry@[top as int]@));
        match Self::find(&self.registry[top], id) {
            Some(j) => {
                let found = &self.registry[top][j];
                proof {
                    lemma_index_of_unique(before.last(), id@, j as int);
                }
                Ok(Symbol { id: found.id.clone(), scope: found.scope, index: found.index })
            },
            None => {
                let size = self.registry[top].len();
                if size >= MAX_SYMBOLS {
                    return Err(CompileError::TooManySymbols);
                }
                let scope = if top == 0 {
                    Scope::GLOBAL
                } else {
                    Scope::LOCAL
                };
                let index = size as u16;
                self.registry[top].push(Symbol { id: id.to_owned(), scope, index });
                proof {
                    let after = self.scopes();
                    assert(after =~= with_name(before, id@)) by {
                        assert forall|i: int| 0 <= i < after.len() implies after[i] == with_name(
                            before,
                            id@,
                        )[i] by {
                            if i < top {
                                assert(self.registry@[i] == old(self).registry@[i]);
                            } else {
                                assert(after[i] =~= before.last().push(id@));
                            }
                        }
                    }
                    lemma_with_name_valid(before, id@);
                    lemma_index_of_unique(after.last(), id@, size as int);
                    assert forall|i: int, j: int|
                        0 <= i < self.registry@.len() && 0 <= j < self.registry@[i]@.len() implies {
                        &&& (#[trigger] self.registry@[i]@[j]).index == j
                        &&& self.registry@[i]@[j].scope == scope_at(i)
                    } by {
                        if i < top {
                            assert(self.registry@[i] == old(self).registry@[i]);
                        } else if j < size {
                            assert(self.registry@[i]@[j] == old(self).registry@[i]@[j]);
                        }
                    }
                }
                Ok(Symbol { id: id.to_owned(), scope, index })
            },
        }
    }

    /// Looks a name up, from the top scope down to the global one.
    pub fn lookup(&self, id: &str) -> (r: Option<&Symbol>)
        requires
            self.wf(),
        ensures
            match r {
                Some(symbol) => Some(symbol@) == resolve(self.scopes(), id@),
                None => resolve(self.scopes(), id@) is None,
            },
    {
        let mut depth: usize = self.registry.len();
        let ghost scopes = self.scopes();
        assert(scopes.subrange(0, depth as int) =~= scopes);
        while depth > 0
            invariant
                self.wf(),
                scopes == self.scopes(),
                depth <= self.registry@.len(),
                resolve(scopes, id@) == resolve(scopes.subrange(0, depth as int), id@),
            decreases depth,
        {
            depth -= 1;
            let ghost upto = scopes.subrange(0, depth as int + 1);
            assert(upto.last() == names_of(self.registry@[depth as int]@));
            assert(upto.drop_last() =~= scopes.subrange(0, depth as int));
            match Self::find(&self.registry[depth], id) {
                Some(j) => {
                    proof {
                        lemma_index_of_unique(upto.last(), id@, j as int);
                    }
                    return Some(&self.registry[depth][j]);
                },
                None => {},
            }
        }
        None
    }

    /// The number of names in the top scope.
    pub fn size(&self) -> (n: usize)
        requires
            self.wf(),
        ensures
            n == self.scopes().last().len(),
    {
        self.last().len()
    }

    /// The number of scopes.
    pub fn depth(&self) -> (n: usize)
        requires
            self.wf(),
        ensures
            n == self.scopes().len(),
            n >= 1,
    {
        self.registry.len()
    }

    fn last(&self) -> (top: &Vec<Symbol>)
        requires
            self.wf(),
        ensures
            names_of(top@) == self.scopes().last(),
    {
        &self.registry[self.registry.len() - 1]
    }
}

} // verus!

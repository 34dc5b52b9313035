//! Variable bindings: a chain of scopes, the innermost last.

use crate::errors::{RuntimeError, RuntimeErrorView};
use crate::tokens::Token;
use crate::value::{Value, ValueView};
use vstd::prelude::*;

verus! {

/// What one scope binds: a value for each name it defines.
pub type ScopeView = Map<Seq<char>, ValueView>;

/// The value that `name` stands for: that of the innermost scope that
/// defines it, if any does.
pub open spec fn lookup(chain: Seq<ScopeView>, name: Seq<char>) -> Option<ValueView>
    decreases chain.len(),
{
    if chain.len() == 0 {
        None
    } else if chain.last().contains_key(name) {
        Some(chain.last()[name])
    } else {
        lookup(chain.drop_last(), name)
    }
}

/// The chain after `name` is defined as `value` in the innermost scope.
pub open spec fn defined(chain: Seq<ScopeView>, name: Seq<char>, value: ValueView) -> Seq<
    ScopeView,
>
    recommends
        chain.len() >= 1,
{
    chain.update(chain.len() - 1, chain.last().insert(name, value))
}

/// The chain after `value` is assigned to `name` in the innermost scope
/// that defines it; `None` where no scope does.
pub open spec fn assigned(chain: Seq<ScopeView>, name: Seq<char>, value: ValueView) -> Option<
    Seq<ScopeView>,
>
    decreases chain.len(),
{
    if chain.len() == 0 {
        None
    } else if chain.last().contains_key(name) {
        Some(chain.update(chain.len() - 1, chain.last().insert(name, value)))
    } else {
        match assigned(chain.drop_last(), name, value) {
            Some(outer) => Some(outer.push(chain.last())),
            None => None,
        }
    }
}

/// The error for a variable that no scope defines.
pub open spec fn undefined(name: Seq<char>, line: nat) -> RuntimeErrorView {
    RuntimeErrorView::UndefinedVariable { name, line }
}

/// One name with its value.
struct Binding {
    name: String,
    value: Value,
}

/// What a list of bindings binds, a later one overriding an earlier one.
spec fn bindings_map(entries: Seq<Binding>) -> ScopeView
    decreases entries.len(),
{
    if entries.len() == 0 {
        Map::empty()
    } else {
        bindings_map(entries.drop_last()).insert(entries.last().name@, entries.last().value@)
    }
}

/// Whether `i` is the last entry that binds `name`.
spec fn last_bound_at(entries: Seq<Binding>, name: Seq<char>, i: int) -> bool {
    &&& 0 <= i < entries.len()
    &&& entries[i].name@ == name
    &&& forall|j: int| i < j < entries.len() ==> (#[trigger] entries[j]).name@ != name
}

/// Whether no entry binds `name`.
spec fn unbound(entries: Seq<Binding>, name: Seq<char>) -> bool {
    forall|j: int| 0 <= j < entries.len() ==> (#[trigger] entries[j]).name@ != name
}

proof fn lemma_bound(entries: Seq<Binding>, name: Seq<char>, i: int)
    requires
        last_bound_at(entries, name, i),
    ensures
        bindings_map(entries).contains_key(name),
        bindings_map(entries)[name] == entries[i].value@,
    decreases entries.len(),
{
    if i < entries.len() - 1 {
        assert(entries.last() == entries[entries.len() - 1]);
        lemma_bound(entries.drop_last(), name, i);
    }
}

proof fn lemma_unbound(entries: Seq<Binding>, name: Seq<char>)
    requires
        unbound(entries, name),
    ensures
        !bindings_map(entries).contains_key(name),
    decreases entries.len(),
{
    if entries.len() > 0 {
        assert(entries.last() == entries[entries.len() - 1]);
        lemma_unbound(entries.drop_last(), name);
    }
}

proof fn lemma_rebound(entries: Seq<Binding>, name: Seq<char>, i: int, b: Binding)
    requires
        last_bound_at(entries, name, i),
        b.name@ == name,
    ensures
        bindings_map(entries.update(i, b)) == bindings_map(entries).insert(name, b.value@),
    decreases entries.len(),
{
    let changed = entries.update(i, b);
    if i == entries.len() - 1 {
        assert(changed.drop_last() =~= entries.drop_last());
        assert(bindings_map(changed) =~= bindings_map(entries).insert(name, b.value@));
    } else {
        assert(entries.last() == entries[entries.len() - 1]);
        lemma_rebound(entries.drop_last(), name, i, b);
        assert(changed.drop_last() =~= entries.drop_last().update(i, b));
        assert(bindings_map(changed) =~= bindings_map(entries).insert(name, b.value@));
    }
}

/// The bindings of one block.
struct Scope {
    entries: Vec<Binding>,
}

impl Scope {
    spec fn map(&self) -> ScopeView {
        bindings_map(self.entries@)
    }

    fn new() -> (r: Self)
        ensures
            r.map() == Map::<Seq<char>, ValueView>::empty(),
    {
        Scope { entries: Vec::new() }
    }

    /// The index of the last entry that binds `name`.
    fn find(&self, name: &String) -> (r: Option<usize>)
        ensures
            match r {
                Some(i) => last_bound_at(self.entries@, name@, i as int),
                None => unbound(self.entries@, name@),
            },
    {
        let mut i: usize = self.entries.len();
        while i > 0
            invariant
                i <= self.entries.len(),
                forall|j: int| i <= j < self.entries.len() ==> (#[trigger] self.entries[j]).name@
                    != name@,
            decreases i,
        {
            i -= 1;
            if self.entries[i].name == *name {
                return Some(i);
            }
        }
        None
    }

    /// The value bound to `name`, if any.
    fn fetch(&self, name: &String) -> (r: Option<Value>)
        ensures
            match r {
                Some(v) => self.map().contains_key(name@) && self.map()[name@] == v@,
                None => !self.map().contains_key(name@),
            },
    {
        match self.find(name) {
            Some(i) => {
                proof {
                    lemma_bound(self.entries@, name@, i as int);
                }
                Some(self.entries[i].value.clone())
            },
            None => {
                proof {
                    lemma_unbound(self.entries@, name@);
                }
                None
            },
        }
    }

    /// Binds `name` to `value`, whether or not it was bound.
    fn put(&mut self, name: String, value: Value)
        ensures
            final(self).map() == old(self).map().insert(name@, value@),
    {
        match self.find(&name) {
            Some(i) => {
                let b = Binding { name, value };
                proof {
                    lemma_rebound(self.entries@, name@, i as int, b);
                }
                self.entries[i] = b;
            },
            None => {
                self.entries.push(Binding { name, value });
                assert(self.entries@.drop_last() =~= old(self).entries@);
            },
        }
    }

    /// Binds `name` to `value` if it was bound, and says whether it was.
    fn replace(&mut self, name: &String, value: &Value) -> (r: bool)
        ensures
            r == old(self).map().contains_key(name@),
            final(self).map() == if r {
                old(self).map().insert(name@, value@)
            } else {
                old(self).map()
            },
    {
        match self.find(name) {
            Some(i) => {
                let b = Binding { name: name.clone(), value: value.clone() };
                proof {
                    lemma_bound(self.entries@, name@, i as int);
                    lemma_rebound(self.entries@, name@, i as int, b);
                }
                self.entries[i] = b;
                true
            },
            None => {
                proof {
                    lemma_unbound(self.entries@, name@);
                }
                false
            },
        }
    }
}

/// Where the innermost scope that defines `name` is the one at `k`,
/// assigning changes that scope and no other.
pub proof fn lemma_assigned_at(chain: Seq<ScopeView>, name: Seq<char>, value: ValueView, k: int)
    requires
        0 <= k < chain.len(),
        chain[k].contains_key(name),
        forall|j: int| k < j < chain.len() ==> !(#[trigger] chain[j]).contains_key(name),
    ensures
        assigned(chain, name, value) == Some(chain.update(k, chain[k].insert(name, value))),
    decreases chain.len(),
{
    if k < chain.len() - 1 {
        assert(chain.last() == chain[chain.len() - 1]);
        lemma_assigned_at(chain.drop_last(), name, value, k);
        assert(chain.drop_last().update(k, chain[k].insert(name, value)).push(chain.last())
            =~= chain.update(k, chain[k].insert(name, value)));
    }
}

/// A name that is defined in no scope can be neither read nor assigned.
pub proof fn lemma_undefined(chain: Seq<ScopeView>, name: Seq<char>, value: ValueView)
    requires
        forall|j: int| 0 <= j < chain.len() ==> !(#[trigger] chain[j]).contains_key(name),
    ensures
        lookup(chain, name).is_none(),
        assigned(chain, name, value).is_none(),
    decreases chain.len(),
{
    if chain.len() > 0 {
        assert(chain.last() == chain[chain.len() - 1]);
        lemma_undefined(chain.drop_last(), name, value);
    }
}

/// Where the innermost scope that defines `name` is the one at `k`, the
/// name stands for what that scope binds it to.
pub proof fn lemma_lookup_at(chain: Seq<ScopeView>, name: Seq<char>, k: int)
    requires
        0 <= k < chain.len(),
        chain[k].contains_key(name),
        forall|j: int| k < j < chain.len() ==> !(#[trigger] chain[j]).contains_key(name),
    ensures
        lookup(chain, name) == Some(chain[k][name]),
    decreases chain.len(),
{
    if k < chain.len() - 1 {
        assert(chain.last() == chain[chain.len() - 1]);
        lemma_lookup_at(chain.drop_last(), name, k);
    }
}

/// Assignment succeeds exactly on the names that can be read; it keeps
/// the number of scopes and the set of names that each scope defines, and
/// afterwards the name stands for the value assigned.
pub proof fn lemma_assign_keeps_names(chain: Seq<ScopeView>, name: Seq<char>, value: ValueView)
    ensures
        assigned(chain, name, value).is_some() == lookup(chain, name).is_some(),
        match assigned(chain, name, value) {
            Some(after) => {
                &&& after.len() == chain.len()
                &&& forall|j: int|
                    0 <= j < chain.len() ==> (#[trigger] after[j]).dom() == chain[j].dom()
                &&& lookup(after, name) == Some(value)
            },
            None => true,
        },
    decreases chain.len(),
{
    if chain.len() > 0 {
        if chain.last().contains_key(name) {
            let after = chain.update(chain.len() - 1, chain.last().insert(name, value));
            assert(after.last().dom() =~= chain.last().dom());
            assert forall|j: int| 0 <= j < chain.len() implies (#[trigger] after[j]).dom()
                == chain[j].dom() by {
                if j == chain.len() - 1 {
                    assert(after[j].dom() =~= chain[j].dom());
                }
            }
        } else {
            lemma_assign_keeps_names(chain.drop_last(), name, value);
            match assigned(chain.drop_last(), name, value) {
                Some(outer) => {
                    let after = outer.push(chain.last());
                    assert(after.drop_last() =~= outer);
                    assert forall|j: int| 0 <= j < chain.len() implies (#[trigger] after[j]).dom()
                        == chain[j].dom() by {
                        if j < chain.len() - 1 {
                            assert(after[j] == outer[j]);
                            assert(chain[j] == chain.drop_last()[j]);
                        }
                    }
                },
                None => {},
            }
        }
    }
}

/// A chain of scopes, the innermost last. The outermost scope, the global
/// one, is always there.
pub struct Environment {
    scopes: Vec<Scope>,
}

impl View for Environment {
    type V = Seq<ScopeView>;

    closed spec fn view(&self) -> Seq<ScopeView> {
        Seq::new(self.scopes@.len(), |i: int| self.scopes@[i].map())
    }
}

impl Environment {
    /// Whether the chain holds at least the global scope.
    pub open spec fn well_formed(&self) -> bool {
        self@.len() >= 1
    }

    /// The global scope alone, empty.
    pub fn new() -> (r: Self)
        ensures
            r@ == seq![Map::<Seq<char>, ValueView>::empty()],
    {
        let mut scopes: Vec<Scope> = Vec::new();
        scopes.push(Scope::new());
        let r = Environment { scopes };
        assert(r@ =~= seq![Map::<Seq<char>, ValueView>::empty()]);
        r
    }

    /// A new, empty scope inside `enclosing`.
    pub fn new_from(enclosing: Self) -> (r: Self)
        ensures
            r@ == enclosing@.push(Map::<Seq<char>, ValueView>::empty()),
    {
        let mut scopes = enclosing.scopes;
        scopes.push(Scope::new());
        let r = Environment { scopes };
        assert(r@ =~= enclosing@.push(Map::<Seq<char>, ValueView>::empty()));
        r
    }

    /// The chain without its innermost scope; the global scope stays.
    pub fn enclosing(self) -> (r: Self)
        ensures
            r@ == if self@.len() >= 2 {
                self@.drop_last()
            } else {
                self@
            },
    {
        let mut scopes = self.scopes;
        if scopes.len() >= 2 {
            scopes.pop();
        }
        let r = Environment { scopes };
        assert(r@ =~= if self@.len() >= 2 {
            self@.drop_last()
        } else {
            self@
        });
        r
    }

    /// Enters a new, empty scope.
    pub fn enter(&mut self)
        ensures
            final(self)@ == old(self)@.push(Map::<Seq<char>, ValueView>::empty()),
    {
        self.scopes.push(Scope::new());
        assert(self@ =~= old(self)@.push(Map::<Seq<char>, ValueView>::empty()));
    }

    /// Leaves the innermost scope; the global scope stays.
    pub fn leave(&mut self)
        ensures
            final(self)@ == if old(self)@.len() >= 2 {
                old(self)@.drop_last()
            } else {
                old(self)@
            },
    {
        if self.scopes.len() >= 2 {
            self.scopes.pop();
        }
        assert(self@ =~= if old(self)@.len() >= 2 {
            old(self)@.drop_last()
        } else {
            old(self)@
        });
    }

    /// How many scopes the chain holds.
    pub fn depth(&self) -> (n: usize)
        ensures
            n == self@.len(),
    {
        self.scopes.len()
    }

    /// Binds `name` to `value` in the innermost scope, whether or not it
    /// was bound there. Outer scopes are not touched.
    pub fn define(&mut self, name: String, value: Value)
        requires
            old(self).well_formed(),
        ensures
            final(self)@ == defined(old(self)@, name@, value@),
    {
        let last = self.scopes.len() - 1;
        self.scopes[last].put(name, value);
        assert(self@ =~= defined(old(self)@, name@, value@));
    }

    /// The value of the variable that `name` names.
    pub fn get(&self, name: &Token) -> (r: Result<Value, RuntimeError>)
        ensures
            match r {
                Ok(v) => lookup(self@, name.lexeme@) == Some(v@),
                Err(e) => lookup(self@, name.lexeme@).is_none() && e@ == undefined(
                    name.lexeme@,
                    name.line as nat,
                ),
            },
    {
        let mut i: usize = self.scopes.len();
        while i > 0
            invariant
                i <= self.scopes.len(),
                forall|j: int| i <= j < self@.len() ==> !(#[trigger] self@[j]).contains_key(
                    name.lexeme@,
                ),
            decreases i,
        {
            i -= 1;
            match self.scopes[i].fetch(&name.lexeme) {
                Some(v) => {
                    proof {
                        lemma_lookup_at(self@, name.lexeme@, i as int);
                    }
                    return Ok(v);
                },
                None => {},
            }
        }
        proof {
            lemma_undefined(self@, name.lexeme@, ValueView::Nil);
        }
        Err(RuntimeError::UndefinedVariable { name: name.lexeme.clone(), line: name.line })
    }

    /// Assigns `value` to the variable that `name` names, in the innermost
    /// scope that defines it. Where none does, nothing changes: no
    /// variable is made.
    pub fn assign(&mut self, name: Token, value: Value) -> (r: Result<(), RuntimeError>)
        ensures
            match r {
                Ok(_) => assigned(old(self)@, name.lexeme@, value@) == Some(final(self)@),
                Err(e) => assigned(old(self)@, name.lexeme@, value@).is_none() && final(self)@
                    == old(self)@ && e@ == undefined(name.lexeme@, name.line as nat),
            },
    {
        let mut i: usize = self.scopes.len();
        while i > 0
            invariant
                i <= self.scopes.len(),
                self@ == old(self)@,
                forall|j: int| i <= j < self@.len() ==> !(#[trigger] self@[j]).contains_key(
                    name.lexeme@,
                ),
            decreases i,
        {
            i -= 1;
            let ghost before = self@;
            let found = self.scopes[i].replace(&name.lexeme, &value);
            if found {
                proof {
                    assert(self@ =~= before.update(
                        i as int,
                        before[i as int].insert(name.lexeme@, value@),
                    ));
                    lemma_assigned_at(before, name.lexeme@, value@, i as int);
                }
                return Ok(());
            }
            assert(self@ =~= before);
        }
        proof {
            lemma_undefined(self@, name.lexeme@, value@);
        }
        Err(RuntimeError::UndefinedVariable { name: name.lexeme, line: name.line })
    }

    /// Leaves every scope but the global one.
    pub fn unwind(&mut self)
        requires
            old(self).well_formed(),
        ensures
            final(self)@ == old(self)@.take(1),
    {
        while self.scopes.len() > 1
            invariant
                1 <= self.scopes.len() <= old(self).scopes.len(),
                self@ == old(self)@.take(self.scopes.len() as int),
            decreases self.scopes.len(),
        {
            self.scopes.pop();
            assert(self@ =~= old(self)@.take(self.scopes.len() as int));
        }
        assert(old(self)@.take(old(self).scopes.len() as int) =~= old(self)@);
    }
}

} // verus!

//! The stack of lexical scopes that holds the variables of a program.

use crate::token::{Literal, LiteralView};
use vstd::hash_map::StringHashMap;
use vstd::prelude::*;

verus! {

/// The bindings of one scope. A name bound to `None` is declared but holds no
/// value yet, which is not the same as holding `nil`.
pub type ScopeView = Map<Seq<char>, Option<LiteralView>>;

/// The contents of a slot of a scope.
pub open spec fn slot_view(slot: Option<Literal>) -> Option<LiteralView> {
    match slot {
        Some(value) => Some(value@),
        None => None,
    }
}

/// The contents of one scope as it is stored.
pub open spec fn scope_view(scope: Map<Seq<char>, Option<Literal>>) -> ScopeView {
    scope.map_values(|slot: Option<Literal>| slot_view(slot))
}

/// The mathematical content of an [`Environment`]: its scopes from the top
/// level, at index 0, to the innermost one, which is last.
pub struct EnvironmentView {
    pub scopes: Seq<ScopeView>,
}

impl EnvironmentView {
    /// The environment that holds the empty top-level scope and nothing else.
    pub open spec fn fresh() -> Self {
        EnvironmentView { scopes: seq![Map::empty()] }
    }

    pub open spec fn depth(self) -> nat {
        self.scopes.len()
    }

    /// Enters an empty innermost scope.
    pub open spec fn push(self) -> Self {
        EnvironmentView { scopes: self.scopes.push(Map::empty()) }
    }

    /// Leaves the innermost scope with all its bindings. The top level stays.
    pub open spec fn pop(self) -> Self {
        if self.scopes.len() > 1 {
            EnvironmentView { scopes: self.scopes.drop_last() }
        } else {
            self
        }
    }

    /// Binds `name` in the innermost scope, over any binding it had there.
    pub open spec fn define(self, name: Seq<char>, slot: Option<LiteralView>) -> Self {
        if self.scopes.len() > 0 {
            EnvironmentView {
                scopes: self.scopes.update(
                    self.scopes.len() - 1,
                    self.scopes.last().insert(name, slot),
                ),
            }
        } else {
            self
        }
    }

    /// Whether scope `index` is the innermost scope that declares `name`.
    pub open spec fn declares_innermost(self, name: Seq<char>, index: int) -> bool {
        &&& 0 <= index < self.scopes.len()
        &&& self.scopes[index].contains_key(name)
        &&& forall|inner: int|
            index < inner < self.scopes.len() ==> !(#[trigger] self.scopes[inner]).contains_key(
                name,
            )
    }

    /// The innermost scope among the first `end` that declares `name`.
    pub open spec fn resolve_below(self, name: Seq<char>, end: int) -> Option<int>
        decreases end,
    {
        if end <= 0 {
            None
        } else if self.scopes[end - 1].contains_key(name) {
            Some(end - 1)
        } else {
            self.resolve_below(name, end - 1)
        }
    }

    /// The innermost scope that declares `name`, if any does.
    pub open spec fn resolve(self, name: Seq<char>) -> Option<int> {
        self.resolve_below(name, self.scopes.len() as int)
    }

    /// Stores `value` in the innermost scope that declares `name`; without such
    /// a scope nothing changes.
    pub open spec fn assign(self, name: Seq<char>, value: LiteralView) -> Self {
        match self.resolve(name) {
            Some(index) => EnvironmentView {
                scopes: self.scopes.update(index, self.scopes[index].insert(name, Some(value))),
            },
            None => self,
        }
    }

    /// The value that the innermost declaration of `name` holds. There is none
    /// when no scope declares the name and when the declaration holds no value yet.
    pub open spec fn get(self, name: Seq<char>) -> Option<LiteralView> {
        match self.resolve(name) {
            Some(index) => self.scopes[index][name],
            None => None,
        }
    }

    /// The number of scopes above the top level.
    pub open spec fn nesting(self) -> nat {
        (self.scopes.len() - 1) as nat
    }

    /// Leaves scopes until at most `nesting` are left above the top level.
    pub open spec fn unwind(self, nesting: nat) -> Self {
        if nesting + 1 < self.scopes.len() {
            EnvironmentView { scopes: self.scopes.take(nesting as int + 1) }
        } else {
            self
        }
    }
}

/// Scopes `end..top` do not declare the name, so the search may skip them.
pub proof fn lemma_resolve_skips(env: EnvironmentView, name: Seq<char>, end: int, top: int)
    requires
        0 <= end <= top <= env.scopes.len(),
        forall|index: int| end <= index < top ==> !(#[trigger] env.scopes[index]).contains_key(name),
    ensures
        env.resolve_below(name, top) == env.resolve_below(name, end),
    decreases top - end,
{
    if end < top {
        lemma_resolve_skips(env, name, end, top - 1);
    }
}

/// A search among the first `end` scopes finds the innermost of them that
/// declares the name, and finds nothing only when none of them declares it.
pub proof fn lemma_resolve_below_innermost(env: EnvironmentView, name: Seq<char>, end: int)
    requires
        0 <= end <= env.scopes.len(),
    ensures
        match env.resolve_below(name, end) {
            Some(index) => {
                &&& 0 <= index < end
                &&& env.scopes[index].contains_key(name)
                &&& forall|inner: int|
                    index < inner < end ==> !(#[trigger] env.scopes[inner]).contains_key(name)
            },
            None => forall|index: int|
                0 <= index < end ==> !(#[trigger] env.scopes[index]).contains_key(name),
        },
    decreases end,
{
    if end > 0 && !env.scopes[end - 1].contains_key(name) {
        lemma_resolve_below_innermost(env, name, end - 1);
    }
}

/// Name resolution picks the nearest enclosing scope that declares the name:
/// `resolve` answers `index` exactly when scope `index` declares the name and no
/// scope inside it does, and answers nothing exactly when no scope declares it.
pub proof fn lemma_resolve_nearest(env: EnvironmentView, name: Seq<char>)
    ensures
        forall|index: int|
            env.resolve(name) == Some(index) <==> env.declares_innermost(name, index),
        env.resolve(name).is_none() <==> forall|index: int|
            0 <= index < env.scopes.len() ==> !(#[trigger] env.scopes[index]).contains_key(name),
{
    lemma_resolve_below_innermost(env, name, env.scopes.len() as int);
    assert forall|index: int| env.declares_innermost(name, index) implies env.resolve(name)
        == Some(index) by {
        match env.resolve(name) {
            Some(found) => {
                if found < index {
                    assert(!env.scopes[index].contains_key(name));
                }
                if index < found {
                    assert(!env.scopes[found].contains_key(name));
                }
            },
            None => {
                assert(!env.scopes[index].contains_key(name));
            },
        }
    }
}

/// An assignment changes the nearest enclosing scope that declares the name and
/// no other scope, and in that scope only the assigned name.
pub proof fn lemma_assign_nearest(
    env: EnvironmentView,
    name: Seq<char>,
    value: LiteralView,
    index: int,
)
    requires
        env.declares_innermost(name, index),
    ensures
        env.assign(name, value).scopes.len() == env.scopes.len(),
        env.assign(name, value).scopes[index] == env.scopes[index].insert(name, Some(value)),
        forall|other: int|
            0 <= other < env.scopes.len() && other != index ==> env.assign(name, value).scopes[other]
                == env.scopes[other],
        env.assign(name, value).get(name) == Some(value),
{
    lemma_resolve_nearest(env, name);
    let after = env.assign(name, value);
    lemma_resolve_nearest(after, name);
    assert(after.declares_innermost(name, index)) by {
        assert forall|inner: int| index < inner < after.scopes.len() implies !(
        #[trigger] after.scopes[inner]).contains_key(name) by {
            assert(after.scopes[inner] == env.scopes[inner]);
        }
    }
}

/// What a block declares is gone when the block is left: entering a scope,
/// declaring a name there and leaving the scope gives the environment back as
/// it was, whether or not an enclosing scope declares the same name.
pub proof fn lemma_block_declaration_stays_inside(
    env: EnvironmentView,
    name: Seq<char>,
    slot: Option<LiteralView>,
)
    requires
        env.depth() >= 1,
    ensures
        env.push().define(name, slot).pop() == env,
        env.push().define(name, slot).get(name) == slot,
{
    let inner = env.push().define(name, slot);
    assert(inner.pop().scopes =~= env.scopes);
    assert(inner.scopes.last().contains_key(name));
}

/// A block that declares no name of its own assigns to the bindings around it:
/// entering a scope, assigning there and leaving the scope is the same as
/// assigning without the scope.
pub proof fn lemma_block_assignment_reaches_outside(
    env: EnvironmentView,
    name: Seq<char>,
    value: LiteralView,
)
    requires
        env.depth() >= 1,
    ensures
        env.push().resolve(name) == env.resolve(name),
        env.push().assign(name, value).pop() == env.assign(name, value),
        env.push().get(name) == env.get(name),
{
    let inner = env.push();
    assert(!inner.scopes[inner.scopes.len() - 1].contains_key(name));
    lemma_resolve_at(inner, env, name, env.scopes.len() as int);
    lemma_resolve_below_innermost(env, name, env.scopes.len() as int);
    assert(inner.assign(name, value).pop().scopes =~= env.assign(name, value).scopes);
}

/// Environments that agree on their first `end` scopes resolve a name among
/// those scopes alike.
proof fn lemma_resolve_at(first: EnvironmentView, second: EnvironmentView, name: Seq<char>, end: int)
    requires
        0 <= end <= first.scopes.len(),
        end <= second.scopes.len(),
        forall|i: int| 0 <= i < end ==> first.scopes[i] == second.scopes[i],
    ensures
        first.resolve_below(name, end) == second.resolve_below(name, end),
    decreases end,
{
    if end > 0 {
        lemma_resolve_at(first, second, name, end - 1);
    }
}

/// A stack of lexical scopes. The top-level scope is always there; blocks push
/// and pop the scopes above it.
pub struct Environment {
    globals: StringHashMap<Option<Literal>>,
    locals: Vec<StringHashMap<Option<Literal>>>,
}

impl View for Environment {
    type V = EnvironmentView;

    closed spec fn view(&self) -> EnvironmentView {
        EnvironmentView {
            scopes: seq![scope_view(self.globals@)] + self.locals@.map_values(
                |scope: StringHashMap<Option<Literal>>| scope_view(scope@),
            ),
        }
    }
}

impl Environment {
    pub fn new() -> (env: Self)
        ensures
            env@ == EnvironmentView::fresh(),
    {
        let env = Self { globals: StringHashMap::new(), locals: Vec::new() };
        assert(env@.scopes =~~= EnvironmentView::fresh().scopes);
        env
    }

    /// Every environment holds its top-level scope.
    pub proof fn lemma_has_top_level(&self)
        ensures
            self@.depth() >= 1,
    {
    }

    /// A search that reaches the top level is decided by the top-level scope.
    proof fn lemma_top_level_search(&self, name: Seq<char>)
        ensures
            self@.scopes[0] == scope_view(self.globals@),
            self@.resolve_below(name, 1) == if self.globals@.contains_key(name) {
                Some(0int)
            } else {
                None
            },
    {
        reveal_with_fuel(EnvironmentView::resolve_below, 2);
    }

    /// The number of scopes above the top level.
    pub fn nesting(&self) -> (nesting: usize)
        ensures
            nesting == self@.nesting(),
    {
        self.locals.len()
    }

    /// Enters an empty innermost scope.
    pub fn push(&mut self)
        ensures
            final(self)@ == old(self)@.push(),
    {
        self.locals.push(StringHashMap::new());
        assert(self@.scopes =~~= old(self)@.push().scopes);
    }

    /// Leaves the innermost scope, unless it is the top level.
    pub fn pop(&mut self)
        ensures
            final(self)@ == old(self)@.pop(),
    {
        if self.locals.len() > 0 {
            self.locals.pop();
            assert(self@.scopes =~~= old(self)@.pop().scopes);
        }
    }

    /// Binds `name` in the innermost scope.
    pub fn define(&mut self, name: String, value: Option<Literal>)
        ensures
            final(self)@ == old(self)@.define(name@, slot_view(value)),
    {
        let n: usize = self.locals.len();
        if n == 0 {
            self.globals.insert(name, value);
        } else {
            let mut scope = self.locals.pop().unwrap();
            scope.insert(name, value);
            self.locals.push(scope);
        }
        assert(self@.scopes =~~= old(self)@.define(name@, slot_view(value)).scopes);
    }

    /// Stores `value` in the nearest enclosing scope that declares `name`, and
    /// fails, changing nothing, when no scope declares it.
    pub fn assign(&mut self, name: String, value: Literal) -> (done: Result<(), ()>)
        ensures
            done.is_ok() <==> old(self)@.resolve(name@).is_some(),
            final(self)@ == old(self)@.assign(name@, value@),
    {
        let n: usize = self.locals.len();
        let mut i: usize = n;
        while i > 0
            invariant
                i <= n,
                n == self.locals@.len(),
                *self == *old(self),
                forall|index: int|
                    i < index <= n ==> !(#[trigger] self@.scopes[index]).contains_key(name@),
            decreases i,
        {
            i -= 1;
            if self.locals[i].contains_key(name.as_str()) {
                proof {
                    lemma_resolve_skips(self@, name@, i + 2, n + 1);
                }
                let ghost before = self@;
                let mut scope = self.locals.remove(i);
                scope.insert(name, Some(value));
                self.locals.insert(i, scope);
                assert(self@.scopes =~~= before.assign(name@, value@).scopes);
                return Ok(());
            }
        }
        proof {
            lemma_resolve_skips(self@, name@, 1, n + 1);
            self.lemma_top_level_search(name@);
        }
        if self.globals.contains_key(name.as_str()) {
            let ghost before = self@;
            self.globals.insert(name, Some(value));
            assert(self@.scopes =~~= before.assign(name@, value@).scopes);
            Ok(())
        } else {
            Err(())
        }
    }

    /// The value of the nearest enclosing declaration of `name`; nothing when
    /// the name is not declared or holds no value yet.
    pub fn get(&mut self, name: &str) -> (value: Option<Literal>)
        ensures
            final(self)@ == old(self)@,
            slot_view(value) == old(self)@.get(name@),
    {
        let n: usize = self.locals.len();
        let mut i: usize = n;
        while i > 0
            invariant
                i <= n,
                n == self.locals@.len(),
                *self == *old(self),
                forall|index: int|
                    i < index <= n ==> !(#[trigger] self@.scopes[index]).contains_key(name@),
            decreases i,
        {
            i -= 1;
            match self.locals[i].get(name) {
                Some(slot) => {
                    proof {
                        lemma_resolve_skips(self@, name@, i + 2, n + 1);
                    }
                    return match slot {
                        Some(value) => Some(value.clone()),
                        None => None,
                    };
                },
                None => {},
            }
        }
        proof {
            lemma_resolve_skips(self@, name@, 1, n + 1);
            self.lemma_top_level_search(name@);
        }
        match self.globals.get(name) {
            Some(slot) => match slot {
                Some(value) => Some(value.clone()),
                None => None,
            },
            None => None,
        }
    }

    /// Leaves scopes until at most `nesting` are left above the top level.
    pub fn unwind(&mut self, nesting: usize)
        ensures
            final(self)@ == old(self)@.unwind(nesting as nat),
    {
        if nesting < self.locals.len() {
            self.locals.truncate(nesting);
            assert(self@.scopes =~~= old(self)@.unwind(nesting as nat).scopes);
        }
    }
}

} // verus!

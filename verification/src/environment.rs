//! The scopes of a running program. A scope maps names to values and lies
//! inside an older scope; a name is looked for from a scope outwards.

use vstd::prelude::*;
use crate::runtime_error::{RuntimeError, RuntimeErrorView};
use crate::token::Token;
use crate::value::{Value, ValueView};

verus! {

/// One scope: its bindings, and the handle of the scope that encloses it.
struct Scope<'a> {
    names: Vec<String>,
    values: Vec<Value<'a>>,
    enclosing: Option<usize>,
}

/// The mathematical value of a scope: a map from names to values.
pub struct ScopeView<'a> {
    pub values: Map<Seq<char>, ValueView<'a>>,
    pub enclosing: Option<usize>,
}

/// The scopes of a program. A scope is named by its handle, the position at
/// which it was created; scopes are never removed, so a function that
/// captured a scope finds it again however long ago its block was left. Every
/// scope but the first is enclosed by an older one.
pub struct Environment<'a> {
    scopes: Vec<Scope<'a>>,
}

/// The map that the first `count` bindings build; a later binding of a name
/// replaces an earlier one.
pub open spec fn bindings<'a>(names: Seq<String>, values: Seq<Value<'a>>, count: nat) -> Map<
    Seq<char>,
    ValueView<'a>,
>
    decreases count,
{
    if count == 0 {
        Map::empty()
    } else {
        bindings(names, values, (count - 1) as nat).insert(
            names[count - 1]@,
            values[count - 1]@,
        )
    }
}

/// The scope in which `key` is found when the chain is walked from `scope`
/// outwards, or `None` when no scope of the chain defines it.
pub open spec fn resolve<'a>(scopes: Seq<ScopeView<'a>>, scope: int, key: Seq<char>) -> Option<int>
    decreases scope,
{
    if scope < 0 || scope >= scopes.len() {
        None
    } else if scopes[scope].values.contains_key(key) {
        Some(scope)
    } else {
        match scopes[scope].enclosing {
            Some(outer) => if outer < scope {
                resolve(scopes, outer as int, key)
            } else {
                None
            },
            None => None,
        }
    }
}

/// The value that `key` resolves to from `scope`.
pub open spec fn lookup<'a>(scopes: Seq<ScopeView<'a>>, scope: int, key: Seq<char>) -> Option<
    ValueView<'a>,
> {
    match resolve(scopes, scope, key) {
        Some(found) => Some(scopes[found].values[key]),
        None => None,
    }
}

/// The scopes after `key` was bound to `value` in `scope`.
pub open spec fn bind<'a>(
    scopes: Seq<ScopeView<'a>>,
    scope: int,
    key: Seq<char>,
    value: ValueView<'a>,
) -> Seq<ScopeView<'a>> {
    scopes.update(
        scope,
        ScopeView { values: scopes[scope].values.insert(key, value), enclosing: scopes[scope].enclosing },
    )
}

/// Every scope is enclosed by an older one, if by any.
pub open spec fn chain_ordered<'a>(scopes: Seq<ScopeView<'a>>) -> bool {
    forall|i: int|
        0 <= i < scopes.len() ==> match (#[trigger] scopes[i]).enclosing {
            Some(outer) => outer < i,
            None => true,
        }
}

/// Whether `outer` lies on the chain that is walked from `inner` outwards.
pub open spec fn encloses<'a>(scopes: Seq<ScopeView<'a>>, inner: int, outer: int) -> bool
    decreases inner,
{
    if inner < 0 || inner >= scopes.len() {
        false
    } else if inner == outer {
        true
    } else {
        match scopes[inner].enclosing {
            Some(next) => next < inner && encloses(scopes, next as int, outer),
            None => false,
        }
    }
}

/// A variable that was defined in a scope is read back from that scope with
/// the value it was defined with.
pub proof fn get_after_define<'a>(
    scopes: Seq<ScopeView<'a>>,
    scope: int,
    key: Seq<char>,
    value: ValueView<'a>,
)
    requires
        0 <= scope < scopes.len(),
    ensures
        lookup(bind(scopes, scope, key, value), scope, key) == Some(value),
{
}

/// A variable that was defined twice in a scope holds the second value.
pub proof fn get_after_redefine<'a>(
    scopes: Seq<ScopeView<'a>>,
    scope: int,
    key: Seq<char>,
    first: ValueView<'a>,
    second: ValueView<'a>,
)
    requires
        0 <= scope < scopes.len(),
    ensures
        lookup(bind(bind(scopes, scope, key, first), scope, key, second), scope, key) == Some(second),
{
}

/// Defining a variable leaves every other scope, and every other variable
/// of its own scope, as it was: it can shadow an outer binding, never
/// change one.
pub proof fn define_touches_one_binding<'a>(
    scopes: Seq<ScopeView<'a>>,
    scope: int,
    key: Seq<char>,
    value: ValueView<'a>,
)
    requires
        0 <= scope < scopes.len(),
    ensures
        bind(scopes, scope, key, value).len() == scopes.len(),
        forall|other: int|
            0 <= other < scopes.len() && other != scope ==> bind(scopes, scope, key, value)[other]
                == scopes[other],
        forall|name: Seq<char>|
            name != key ==> (bind(scopes, scope, key, value)[scope].values.contains_key(name)
                == scopes[scope].values.contains_key(name) && (scopes[scope].values.contains_key(
                name,
            ) ==> bind(scopes, scope, key, value)[scope].values[name] == scopes[scope].values[name])),
{
}

/// A name resolves to no scope exactly when no scope of the chain defines
/// it; an assignment to such a name fails.
pub proof fn unresolved_means_undefined<'a>(scopes: Seq<ScopeView<'a>>, scope: int, key: Seq<char>)
    ensures
        resolve(scopes, scope, key) is None <==> forall|other: int|
            encloses(scopes, scope, other) ==> !(#[trigger] scopes[other]).values.contains_key(key),
    decreases scope,
{
    if 0 <= scope < scopes.len() {
        assert(encloses(scopes, scope, scope));
        if !scopes[scope].values.contains_key(key) {
            match scopes[scope].enclosing {
                Some(next) => {
                    if next < scope {
                        unresolved_means_undefined(scopes, next as int, key);
                        assert forall|other: int| encloses(scopes, next as int, other) implies encloses(
                            scopes,
                            scope,
                            other,
                        ) by {}
                    }
                },
                None => {},
            }
        }
    }
}

/// A name resolves to a scope that exists.
pub proof fn resolves_inside<'a>(scopes: Seq<ScopeView<'a>>, scope: int, key: Seq<char>)
    ensures
        match resolve(scopes, scope, key) {
            Some(found) => 0 <= found <= scope && found < scopes.len(),
            None => true,
        },
    decreases scope,
{
    if 0 <= scope < scopes.len() && !scopes[scope].values.contains_key(key) {
        match scopes[scope].enclosing {
            Some(next) => {
                if next < scope {
                    resolves_inside(scopes, next as int, key);
                }
            },
            None => {},
        }
    }
}

/// Binding a name keeps every scope in its place, and every name bound.
pub proof fn bind_keeps_bindings<'a>(
    scopes: Seq<ScopeView<'a>>,
    scope: int,
    key: Seq<char>,
    value: ValueView<'a>,
)
    requires
        0 <= scope < scopes.len(),
    ensures
        bind(scopes, scope, key, value).len() == scopes.len(),
        forall|other: int|
            0 <= other < scopes.len() ==> (#[trigger] bind(scopes, scope, key, value)[other]).enclosing
                == scopes[other].enclosing,
        forall|other: int, name: Seq<char>|
            0 <= other < scopes.len() && scopes[other].values.contains_key(name) ==> #[trigger] bind(
                scopes,
                scope,
                key,
                value,
            )[other].values.contains_key(name),
{
}

/// The scopes around a scope are older than it.
pub proof fn enclosing_scopes_are_older<'a>(scopes: Seq<ScopeView<'a>>, scope: int)
    ensures
        forall|other: int| #[trigger] encloses(scopes, scope, other) ==> 0 <= other <= scope,
    decreases scope,
{
    assert forall|other: int| #[trigger] encloses(scopes, scope, other) implies 0 <= other
        <= scope by {
        if other != scope {
            let next = scopes[scope].enclosing->Some_0;
            enclosing_scopes_are_older(scopes, next as int);
            assert(encloses(scopes, next as int, other));
        }
    }
}

/// A name resolves to the nearest scope of the chain that defines it.
pub proof fn resolves_to_nearest<'a>(scopes: Seq<ScopeView<'a>>, scope: int, key: Seq<char>)
    ensures
        match resolve(scopes, scope, key) {
            Some(found) => {
                &&& encloses(scopes, scope, found)
                &&& scopes[found].values.contains_key(key)
                &&& forall|other: int|
                    #[trigger] encloses(scopes, scope, other) && found < other ==> !scopes[other].values.contains_key(
                        key,
                    )
            },
            None => true,
        },
    decreases scope,
{
    if 0 <= scope < scopes.len() {
        if !scopes[scope].values.contains_key(key) {
            match scopes[scope].enclosing {
                Some(next) => {
                    if next < scope {
                        resolves_to_nearest(scopes, next as int, key);
                        let found = resolve(scopes, scope, key);
                        if found is Some {
                            assert forall|other: int| #[trigger]
                                encloses(scopes, scope, other) && found->Some_0
                                < other implies !scopes[other].values.contains_key(key) by {
                                if other != scope {
                                    assert(encloses(scopes, next as int, other));
                                }
                            }
                        }
                    }
                },
                None => {},
            }
        } else {
            enclosing_scopes_are_older(scopes, scope);
        }
    }
}

proof fn lemma_bindings_skip<'a>(names: Seq<String>, values: Seq<Value<'a>>, from: nat, to: nat, key: Seq<char>)
    requires
        from <= to <= names.len(),
        forall|j: int| from <= j < to ==> names[j]@ != key,
    ensures
        bindings(names, values, to).contains_key(key) == bindings(names, values, from).contains_key(key),
        bindings(names, values, to).contains_key(key) ==> bindings(names, values, to)[key] == bindings(
            names,
            values,
            from,
        )[key],
    decreases to,
{
    if to > from {
        lemma_bindings_skip(names, values, from, (to - 1) as nat, key);
    }
}

proof fn lemma_bindings_same<'a>(
    names: Seq<String>,
    values: Seq<Value<'a>>,
    other_names: Seq<String>,
    other_values: Seq<Value<'a>>,
    count: nat,
)
    requires
        forall|j: int| 0 <= j < count ==> names[j]@ == other_names[j]@,
        forall|j: int| 0 <= j < count ==> values[j]@ == other_values[j]@,
    ensures
        bindings(names, values, count) == bindings(other_names, other_values, count),
    decreases count,
{
    if count > 0 {
        lemma_bindings_same(names, values, other_names, other_values, (count - 1) as nat);
    }
}

proof fn lemma_bindings_replace<'a>(
    names: Seq<String>,
    values: Seq<Value<'a>>,
    at: int,
    value: Value<'a>,
    count: nat,
)
    requires
        0 <= at < count <= names.len(),
        names.len() == values.len(),
        forall|j: int| at < j < count ==> names[j]@ != names[at]@,
    ensures
        bindings(names, values.update(at, value), count) =~= bindings(names, values, count).insert(
            names[at]@,
            value@,
        ),
    decreases count,
{
    let updated = values.update(at, value);
    if at == count - 1 {
        lemma_bindings_same(names, values, names, updated, (count - 1) as nat);
    } else {
        lemma_bindings_replace(names, values, at, value, (count - 1) as nat);
    }
}

impl<'a> View for Scope<'a> {
    type V = ScopeView<'a>;

    closed spec fn view(&self) -> ScopeView<'a> {
        ScopeView {
            values: bindings(self.names@, self.values@, self.names@.len()),
            enclosing: self.enclosing,
        }
    }
}

impl<'a> Scope<'a> {
    spec fn well_formed(&self) -> bool {
        self.names@.len() == self.values@.len()
    }

    fn bind(&mut self, key: String, value: Value<'a>)
        requires
            old(self).well_formed(),
        ensures
            final(self).well_formed(),
            final(self)@.values == old(self)@.values.insert(key@, value@),
            final(self)@.enclosing == old(self)@.enclosing,
    {
        self.names.push(key);
        self.values.push(value);
        proof {
            lemma_bindings_same(
                old(self).names@,
                old(self).values@,
                self.names@,
                self.values@,
                old(self).names@.len(),
            );
        }
    }

    fn replace(&mut self, at: usize, value: Value<'a>)
        requires
            old(self).well_formed(),
            at < old(self).names@.len(),
            forall|j: int| at < j < old(self).names@.len() ==> old(self).names@[j]@ != old(self).names@[at as int]@,
        ensures
            final(self).well_formed(),
            final(self)@.values == old(self)@.values.insert(old(self).names@[at as int]@, value@),
            final(self)@.enclosing == old(self)@.enclosing,
    {
        self.values[at] = value;
        proof {
            lemma_bindings_replace(
                old(self).names@,
                old(self).values@,
                at as int,
                value,
                old(self).names@.len(),
            );
        }
    }

    /// The position of the binding of `key` that counts: the last one.
    fn find(&self, key: &String) -> (at: Option<usize>)
        requires
            self.well_formed(),
        ensures
            match at {
                Some(i) => {
                    &&& i < self.names@.len()
                    &&& self.names@[i as int]@ == key@
                    &&& forall|j: int| i < j < self.names@.len() ==> self.names@[j]@ != key@
                    &&& self@.values.contains_key(key@)
                    &&& self@.values[key@] == self.values@[i as int]@
                },
                None => !self@.values.contains_key(key@),
            },
    {
        let mut i: usize = self.names.len();
        while i > 0
            invariant
                i <= self.names@.len(),
                self.well_formed(),
                forall|j: int| i <= j < self.names@.len() ==> self.names@[j]@ != key@,
            decreases i,
        {
            i = i - 1;
            if self.names[i] == *key {
                proof {
                    lemma_bindings_skip(
                        self.names@,
                        self.values@,
                        (i + 1) as nat,
                        self.names@.len(),
                        key@,
                    );
                }
                return Some(i);
            }
        }
        proof {
            lemma_bindings_skip(self.names@, self.values@, 0, self.names@.len(), key@);
        }
        None
    }
}

impl<'a> View for Environment<'a> {
    type V = Seq<ScopeView<'a>>;

    closed spec fn view(&self) -> Seq<ScopeView<'a>> {
        Seq::new(self.scopes@.len(), |i: int| self.scopes@[i]@)
    }
}

impl<'a> Environment<'a> {
    /// The representation is sound: every scope pairs each name with a
    /// value, and is enclosed by an older scope.
    pub closed spec fn well_formed(&self) -> bool {
        &&& forall|i: int| 0 <= i < self.scopes@.len() ==> (#[trigger] self.scopes@[i]).well_formed()
        &&& chain_ordered(self@)
    }

    /// In a sound environment every scope is enclosed by an older one, and
    /// every scope has a handle.
    pub proof fn well_formed_is_ordered(&self)
        requires
            self.well_formed(),
        ensures
            chain_ordered(self@),
            self@.len() <= usize::MAX,
    {
        let count = self.scopes.len();
        assert(count == self.scopes@.len());
    }

    /// A single scope with no binding, enclosed by none. Its handle is 0.
    pub fn new() -> (environment: Self)
        ensures
            environment.well_formed(),
            environment@ == seq![ScopeView { values: Map::empty(), enclosing: None }],
    {
        let mut scopes: Vec<Scope<'a>> = Vec::new();
        scopes.push(Scope { names: Vec::new(), values: Vec::new(), enclosing: None });
        let environment = Environment { scopes };
        assert(environment@ =~= seq![ScopeView { values: Map::empty(), enclosing: None }]);
        environment
    }

    /// The number of scopes; the handles are the numbers below it.
    pub fn len(&self) -> (count: usize)
        ensures
            count == self@.len(),
    {
        self.scopes.len()
    }

    /// Creates an empty scope inside `enclosing` and returns its handle.
    pub fn enclose(&mut self, enclosing: usize) -> (handle: usize)
        requires
            old(self).well_formed(),
            enclosing < old(self)@.len(),
        ensures
            final(self).well_formed(),
            handle == old(self)@.len(),
            final(self)@ == old(self)@.push(
                ScopeView { values: Map::empty(), enclosing: Some(enclosing) },
            ),
            final(self)@.len() <= usize::MAX,
    {
        let handle = self.scopes.len();
        self.scopes.push(Scope { names: Vec::new(), values: Vec::new(), enclosing: Some(enclosing) });
        assert(self.scopes.len() == self.scopes@.len());
        assert(self@ =~= old(self)@.push(
            ScopeView { values: Map::empty(), enclosing: Some(enclosing) },
        ));
        handle
    }

    /// Binds `key` to `value` in `scope` itself, whatever the scopes around
    /// it hold; an earlier binding of `key` in `scope` is replaced.
    pub fn define(&mut self, scope: usize, key: String, value: Value<'a>)
        requires
            old(self).well_formed(),
            scope < old(self)@.len(),
        ensures
            final(self).well_formed(),
            final(self)@ == bind(old(self)@, scope as int, key@, value@),
    {
        match self.scopes[scope].find(&key) {
            Some(at) => {
                self.scopes[scope].replace(at, value);
            },
            None => {
                self.scopes[scope].bind(key, value);
            },
        }
        assert(self@ =~= bind(old(self)@, scope as int, key@, value@));
    }

    /// The scope of the chain from `scope` outwards that defines `key`.
    fn locate(&self, scope: usize, key: &String) -> (found: Option<(usize, usize)>)
        requires
            self.well_formed(),
            scope < self@.len(),
        ensures
            match found {
                Some((holder, at)) => {
                    &&& resolve(self@, scope as int, key@) == Some(holder as int)
                    &&& holder < self@.len()
                    &&& at < self.scopes@[holder as int].names@.len()
                    &&& self.scopes@[holder as int].names@[at as int]@ == key@
                    &&& forall|j: int|
                        at < j < self.scopes@[holder as int].names@.len()
                            ==> self.scopes@[holder as int].names@[j]@ != key@
                    &&& self@[holder as int].values[key@] == self.scopes@[holder as int].values@[at as int]@
                },
                None => resolve(self@, scope as int, key@) is None,
            },
    {
        let mut current: usize = scope;
        loop
            invariant
                self.well_formed(),
                current < self@.len(),
                resolve(self@, current as int, key@) == resolve(self@, scope as int, key@),
            decreases current,
        {
            match self.scopes[current].find(key) {
                Some(at) => {
                    return Some((current, at));
                },
                None => {
                    match self.scopes[current].enclosing {
                        Some(outer) => {
                            assert(self@[current as int].enclosing == Some(outer));
                            current = outer;
                        },
                        None => {
                            return None;
                        },
                    }
                },
            }
        }
    }

    /// Reads the variable `name` as seen from `scope`: the binding of the
    /// nearest scope that defines it, from `scope` outwards.
    pub fn get(&self, scope: usize, name: &Token) -> (found: Option<&Value<'a>>)
        requires
            self.well_formed(),
            scope < self@.len(),
        ensures
            match lookup(self@, scope as int, name.lexeme@) {
                Some(value) => found is Some && found->Some_0@ == value,
                None => found is None,
            },
    {
        match self.locate(scope, &name.lexeme) {
            Some((holder, at)) => Some(&self.scopes[holder].values[at]),
            None => None,
        }
    }

    /// Writes `value` to the variable `name` as seen from `scope`: into the
    /// nearest scope that already defines it. Where no scope of the chain
    /// does, nothing changes and the assignment fails.
    pub fn assign(&mut self, scope: usize, name: &Token, value: Value<'a>) -> (outcome: Result<
        (),
        RuntimeError,
    >)
        requires
            old(self).well_formed(),
            scope < old(self)@.len(),
        ensures
            final(self).well_formed(),
            final(self)@.len() == old(self)@.len(),
            match resolve(old(self)@, scope as int, name.lexeme@) {
                Some(holder) => outcome is Ok && final(self)@ == bind(
                    old(self)@,
                    holder,
                    name.lexeme@,
                    value@,
                ),
                None => final(self)@ == old(self)@ && outcome is Err && outcome->Err_0@ == (
                RuntimeErrorView::UndefinedVariable { name: name.lexeme@, line: name.line }),
            },
    {
        match self.locate(scope, &name.lexeme) {
            Some((holder, at)) => {
                self.scopes[holder].replace(at, value);
                assert(self@ =~= bind(old(self)@, holder as int, name.lexeme@, value@));
                Ok(())
            },
            None => Err(RuntimeError::UndefinedVariable { name: name.lexeme.clone(), line: name.line }),
        }
    }
}

} // verus!

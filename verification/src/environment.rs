//! The chain of lexical scopes.
//!
//! Scopes are threaded as a stack owned by the environment: the first scope
//! is the global one, the last is the innermost. Entering a block pushes a
//! scope, leaving it pops one; a name is resolved walking from the innermost
//! scope outward.
use vstd::prelude::*;

use crate::interpreter::{RuntimeError, RuntimeErrorKind, RuntimeErrorModel};
use crate::token::{LiteralVal, Token, ValModel};

verus! {

/// One name-to-value binding of a scope.
pub struct Binding {
    pub name: String,
    pub value: LiteralVal,
}

/// The mapping a scope holds: of bindings with the same name, the one added
/// last wins.
pub open spec fn scope_map(bindings: Seq<Binding>) -> Map<Seq<char>, ValModel>
    decreases bindings.len(),
{
    if bindings.len() == 0 {
        Map::empty()
    } else {
        scope_map(bindings.drop_last()).insert(
            bindings.last().name@,
            bindings.last().value@,
        )
    }
}

pub open spec fn chain_of(scopes: Seq<Vec<Binding>>) -> Seq<Map<Seq<char>, ValModel>> {
    Seq::new(scopes.len(), |i: int| scope_map(scopes[i]@))
}

/// Resolves a name against a scope chain, innermost scope last, walking
/// outward; `None` when no scope binds it.
pub open spec fn chain_lookup(
    chain: Seq<Map<Seq<char>, ValModel>>,
    name: Seq<char>,
) -> Option<ValModel>
    decreases chain.len(),
{
    if chain.len() == 0 {
        None
    } else if chain.last().contains_key(name) {
        Some(chain.last()[name])
    } else {
        chain_lookup(chain.drop_last(), name)
    }
}

/// Overwrites the innermost existing binding of a name, walking outward;
/// `None` when no scope binds it (assignment never creates a binding).
pub open spec fn chain_assign(
    chain: Seq<Map<Seq<char>, ValModel>>,
    name: Seq<char>,
    value: ValModel,
) -> Option<Seq<Map<Seq<char>, ValModel>>>
    decreases chain.len(),
{
    if chain.len() == 0 {
        None
    } else if chain.last().contains_key(name) {
        Some(chain.drop_last().push(chain.last().insert(name, value)))
    } else {
        match chain_assign(chain.drop_last(), name, value) {
            Some(outer) => Some(outer.push(chain.last())),
            None => None,
        }
    }
}

/// The chain of lexical scopes, global scope first, innermost scope last.
pub struct Environment {
    scopes: Vec<Vec<Binding>>,
}

impl View for Environment {
    type V = Seq<Map<Seq<char>, ValModel>>;

    closed spec fn view(&self) -> Seq<Map<Seq<char>, ValModel>> {
        chain_of(self.scopes@)
    }
}

/// Finds the binding of `name` added last to `scope`, if any.
fn find_in_scope(scope: &Vec<Binding>, name: &String) -> (r: Option<usize>)
    ensures
        match r {
            Some(k) => {
                &&& k < scope@.len()
                &&& scope@[k as int].name@ == name@
                &&& scope_map(scope@).contains_key(name@)
                &&& scope_map(scope@)[name@] == scope@[k as int].value@
                &&& forall|i: int| k < i < scope@.len() ==> (#[trigger] scope@[i]).name@ != name@
            },
            None => !scope_map(scope@).contains_key(name@),
        },
{
    let mut k = scope.len();
    proof {
        assert(scope@.subrange(0, k as int) =~= scope@);
    }
    while k > 0
        invariant
            k <= scope@.len(),
            scope_map(scope@).contains_key(name@) == scope_map(
                scope@.subrange(0, k as int),
            ).contains_key(name@),
            scope_map(scope@).contains_key(name@) ==> scope_map(scope@)[name@] == scope_map(
                scope@.subrange(0, k as int),
            )[name@],
            forall|i: int| k <= i < scope@.len() ==> (#[trigger] scope@[i]).name@ != name@,
        decreases k,
    {
        k = k - 1;
        let b = &scope[k];
        proof {
            let pre = scope@.subrange(0, k + 1);
            assert(pre.drop_last() =~= scope@.subrange(0, k as int));
            assert(pre.last() == scope@[k as int]);
        }
        if b.name == *name {
            return Some(k);
        }
    }
    proof {
        assert(scope@.subrange(0, 0) =~= Seq::<Binding>::empty());
    }
    None
}

/// Resolves `name` in `scopes`, looking only at the outermost `j` scopes,
/// innermost of those first.
fn get_from(scopes: &Vec<Vec<Binding>>, j: usize, name: &Token) -> (r: Result<
    LiteralVal,
    RuntimeError,
>)
    requires
        j <= scopes@.len(),
    ensures
        match chain_lookup(chain_of(scopes@).subrange(0, j as int), name@.lexeme) {
            Some(v) => r is Ok && r->Ok_0@ == v,
            None => {
                &&& r is Err
                &&& r->Err_0@ == (RuntimeErrorModel {
                    token: Some(name@),
                    kind: RuntimeErrorKind::UndefinedVariable,
                })
            },
        },
    decreases j,
{
    if j == 0 {
        proof {
            assert(chain_of(scopes@).subrange(0, 0) =~= Seq::<Map<Seq<char>, ValModel>>::empty());
        }
        Err(
            RuntimeError {
                token: Some(name.clone()),
                kind: RuntimeErrorKind::UndefinedVariable,
            },
        )
    } else {
        proof {
            let c = chain_of(scopes@).subrange(0, j as int);
            assert(c.last() == scope_map(scopes@[j - 1]@));
            assert(c.drop_last() =~= chain_of(scopes@).subrange(0, j - 1));
        }
        match find_in_scope(&scopes[j - 1], &name.lexeme) {
            Some(k) => Ok(scopes[j - 1][k].value.clone()),
            None => get_from(scopes, j - 1, name),
        }
    }
}

/// Overwrites the innermost existing binding of `name` across `scopes`,
/// mirroring `chain_assign`.
fn assign_in_scopes(scopes: &mut Vec<Vec<Binding>>, name: &Token, value: LiteralVal) -> (r: Result<
    (),
    RuntimeError,
>)
    ensures
        match chain_assign(chain_of(old(scopes)@), name@.lexeme, value@) {
            Some(c) => r is Ok && chain_of(final(scopes)@) == c && final(scopes)@.len() == old(
                scopes,
            )@.len(),
            None => {
                &&& r is Err
                &&& r->Err_0@ == (RuntimeErrorModel {
                    token: Some(name@),
                    kind: RuntimeErrorKind::UndefinedVariable,
                })
                &&& final(scopes)@ == old(scopes)@
            },
        },
    decreases scopes@.len(),
{
    if scopes.len() == 0 {
        proof {
            assert(chain_of(scopes@) =~= Seq::<Map<Seq<char>, ValModel>>::empty());
        }
        return Err(
            RuntimeError {
                token: Some(name.clone()),
                kind: RuntimeErrorKind::UndefinedVariable,
            },
        );
    }
    let ghost old_scopes = scopes@;
    let mut scope = match scopes.pop() {
        Some(s) => s,
        None => Vec::new(),
    };
    proof {
        assert(chain_of(old_scopes).drop_last() =~= chain_of(scopes@));
        assert(chain_of(old_scopes).last() == scope_map(scope@));
    }
    match find_in_scope(&scope, &name.lexeme) {
        Some(k) => {
            let ghost old_scope = scope@;
            scope[k] = Binding { name: name.lexeme.clone(), value };
            proof {
                lemma_scope_map_update(old_scope, k as int, scope@[k as int]);
                assert(chain_of(scopes@.push(scope)) =~= chain_of(scopes@).push(
                    scope_map(scope@),
                ));
                assert(chain_of(old_scopes).drop_last().push(
                    chain_of(old_scopes).last().insert(name@.lexeme, value@),
                ) =~= chain_of(scopes@).push(scope_map(scope@)));
            }
            scopes.push(scope);
            Ok(())
        },
        None => {
            let r = assign_in_scopes(scopes, name, value);
            proof {
                assert(chain_of(scopes@.push(scope)) =~= chain_of(scopes@).push(
                    scope_map(scope@),
                ));
            }
            scopes.push(scope);
            proof {
                if r is Ok {
                    let inner = chain_assign(
                        chain_of(old_scopes).drop_last(),
                        name@.lexeme,
                        value@,
                    );
                    assert(chain_of(scopes@) =~= inner->Some_0.push(scope_map(scope@)));
                }
            }
            r
        },
    }
}

/// Overwriting the binding at `k` — the innermost binding of that name —
/// changes the scope's mapping exactly as a map insert does.
proof fn lemma_scope_map_update(s: Seq<Binding>, k: int, b: Binding)
    requires
        0 <= k < s.len(),
        s[k].name@ == b.name@,
        forall|i: int| k < i < s.len() ==> (#[trigger] s[i]).name@ != b.name@,
    ensures
        scope_map(s.update(k, b)) =~= scope_map(s).insert(b.name@, b.value@),
    decreases s.len(),
{
    let u = s.update(k, b);
    if k == s.len() - 1 {
        assert(u.drop_last() =~= s.drop_last());
        assert(u.last() == b);
    } else {
        assert(u.drop_last() =~= s.drop_last().update(k, b));
        assert(u.last() == s.last());
        lemma_scope_map_update(s.drop_last(), k, b);
    }
}

impl Environment {
    /// A fresh environment: one empty global scope.
    pub fn new() -> (r: Self)
        ensures
            r@ =~= seq![Map::<Seq<char>, ValModel>::empty()],
    {
        let mut scopes: Vec<Vec<Binding>> = Vec::new();
        scopes.push(Vec::new());
        Environment { scopes }
    }

    pub open spec fn well_formed(&self) -> bool {
        self@.len() >= 1
    }

    /// Enters a scope enclosed by the current chain: the new innermost scope
    /// is empty, everything outer is unchanged.
    pub fn with_enclosing(&mut self)
        ensures
            final(self)@ =~= old(self)@.push(Map::<Seq<char>, ValModel>::empty()),
    {
        self.scopes.push(Vec::new());
        proof {
            assert(chain_of(self.scopes@) =~= chain_of(old(self).scopes@).push(
                Map::<Seq<char>, ValModel>::empty(),
            ));
        }
    }

    /// Leaves the innermost scope, discarding its bindings.
    pub fn close_scope(&mut self)
        requires
            old(self)@.len() >= 2,
        ensures
            final(self)@ =~= old(self)@.drop_last(),
    {
        let _ = self.scopes.pop();
        proof {
            assert(chain_of(self.scopes@) =~= chain_of(old(self).scopes@).drop_last());
        }
    }

    /// Declares `name` in the innermost scope, shadowing any outer binding
    /// and overwriting any earlier declaration in the same scope.
    pub fn define(&mut self, name: String, value: LiteralVal)
        requires
            old(self).well_formed(),
        ensures
            final(self)@ =~= old(self)@.drop_last().push(
                old(self)@.last().insert(name@, value@),
            ),
    {
        let mut scope = match self.scopes.pop() {
            Some(s) => s,
            None => Vec::new(),
        };
        let ghost old_scope = scope@;
        scope.push(Binding { name, value });
        proof {
            assert(scope@.drop_last() =~= old_scope);
            assert(chain_of(old(self).scopes@).drop_last() =~= chain_of(self.scopes@));
        }
        self.scopes.push(scope);
        proof {
            assert(chain_of(self.scopes@) =~= chain_of(self.scopes@.drop_last()).push(
                scope_map(scope@),
            ));
        }
    }

    /// Resolves `name` innermost-outward; an exhausted chain is an
    /// undefined-variable error naming the token.
    pub fn get(&self, name: &Token) -> (r: Result<LiteralVal, RuntimeError>)
        ensures
            match chain_lookup(self@, name@.lexeme) {
                Some(v) => r is Ok && r->Ok_0@ == v,
                None => {
                    &&& r is Err
                    &&& r->Err_0@ == (RuntimeErrorModel {
                        token: Some(name@),
                        kind: RuntimeErrorKind::UndefinedVariable,
                    })
                },
            },
    {
        proof {
            assert(chain_of(self.scopes@).subrange(0, self.scopes@.len() as int) =~= chain_of(
                self.scopes@,
            ));
        }
        get_from(&self.scopes, self.scopes.len(), name)
    }

    /// Overwrites the innermost existing binding of `name`; assignment never
    /// creates a binding, so an exhausted chain is an undefined-variable
    /// error and leaves the environment unchanged.
    pub fn assign(&mut self, name: &Token, value: LiteralVal) -> (r: Result<(), RuntimeError>)
        ensures
            match chain_assign(old(self)@, name@.lexeme, value@) {
                Some(c) => r is Ok && final(self)@ == c && final(self)@.len() == old(self)@.len(),
                None => {
                    &&& r is Err
                    &&& r->Err_0@ == (RuntimeErrorModel {
                        token: Some(name@),
                        kind: RuntimeErrorKind::UndefinedVariable,
                    })
                    &&& final(self)@ == old(self)@
                },
            },
    {
        assign_in_scopes(&mut self.scopes, name, value)
    }
}

} // verus!

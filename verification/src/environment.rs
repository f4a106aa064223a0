//! The chain of lexical scopes. Scopes live in an arena indexed by
//! position; each scope maps names to values and holds the index of its
//! enclosing scope. A name lookup or an assignment that misses locally walks
//! outward through the chain; a definition always lands in the current
//! scope, shadowing without mutating an outer binding.

use vstd::prelude::*;
use crate::ast::{LoxValue, LoxValueV};
use crate::token::{Token, LoxType, LoxTypeV, TokenV};
use crate::error::{LoxError, LoxErrorV};

verus! {

/// One lexical scope: its bindings in definition order, and the arena index
/// of the enclosing scope, if any.
pub struct Scope {
    pub entries: Vec<(String, LoxValue)>,
    pub parent: Option<usize>,
}

/// The mathematical model of one scope.
#[verifier::ext_equal]
pub struct ScopeV {
    pub entries: Seq<(Seq<char>, LoxValueV)>,
    pub parent: Option<int>,
}

impl View for Scope {
    type V = ScopeV;

    open spec fn view(&self) -> ScopeV {
        ScopeV {
            entries: self.entries@.map(|i: int, p: (String, LoxValue)| (p.0@, p.1@)),
            parent: match self.parent {
                Option::Some(p) => Option::Some(p as int),
                Option::None => Option::None,
            },
        }
    }
}

/// The arena of scopes together with the index of the scope that is
/// currently active.
pub struct Environment {
    pub scopes: Vec<Scope>,
    pub current: usize,
}

/// The mathematical model of the whole environment.
#[verifier::ext_equal]
pub struct EnvV {
    pub scopes: Seq<ScopeV>,
    pub current: int,
}

impl View for Environment {
    type V = EnvV;

    open spec fn view(&self) -> EnvV {
        EnvV {
            scopes: self.scopes@.map(|i: int, s: Scope| s@),
            current: self.current as int,
        }
    }
}

/// Every scope's parent link points strictly earlier in the arena.
pub open spec fn parents_ok(scopes: Seq<ScopeV>) -> bool {
    forall|j: int|
        0 <= j < scopes.len() ==> match (#[trigger] scopes[j]).parent {
            Option::Some(p) => 0 <= p < j,
            Option::None => true,
        }
}

/// A well-formed environment: at least one scope, a current index inside
/// the arena, and parent links that point strictly earlier.
pub open spec fn env_wf(env: EnvV) -> bool {
    &&& 0 < env.scopes.len()
    &&& 0 <= env.current < env.scopes.len()
    &&& parents_ok(env.scopes)
}

/// The value bound to a name among a scope's own entries, the latest
/// definition winning.
pub open spec fn entries_lookup(es: Seq<(Seq<char>, LoxValueV)>, name: Seq<char>) -> Option<
    LoxValueV,
>
    decreases es.len(),
{
    if es.len() == 0 {
        Option::None
    } else if es.last().0 == name {
        Option::Some(es.last().1)
    } else {
        entries_lookup(es.drop_last(), name)
    }
}

/// The entries after mutating the latest binding of a name, if any.
pub open spec fn entries_assign(
    es: Seq<(Seq<char>, LoxValueV)>,
    name: Seq<char>,
    v: LoxValueV,
) -> Seq<(Seq<char>, LoxValueV)>
    decreases es.len(),
{
    if es.len() == 0 {
        es
    } else if es.last().0 == name {
        es.update(es.len() - 1, (name, v))
    } else {
        entries_assign(es.drop_last(), name, v).push(es.last())
    }
}

/// The value a name resolves to when looked up from a scope, walking
/// outward through the chain.
pub open spec fn env_lookup_from(scopes: Seq<ScopeV>, idx: int, name: Seq<char>) -> Option<
    LoxValueV,
>
    decreases idx,
{
    if 0 <= idx < scopes.len() {
        match entries_lookup(scopes[idx].entries, name) {
            Option::Some(v) => Option::Some(v),
            Option::None => match scopes[idx].parent {
                Option::Some(p) => if 0 <= p < idx {
                    env_lookup_from(scopes, p, name)
                } else {
                    Option::None
                },
                Option::None => Option::None,
            },
        }
    } else {
        Option::None
    }
}

/// The value a name resolves to in the active scope chain.
pub open spec fn env_lookup(env: EnvV, name: Seq<char>) -> Option<LoxValueV> {
    env_lookup_from(env.scopes, env.current, name)
}

/// The arena after mutating the first scope outward from `idx` that binds
/// the name; nothing if no scope in the chain binds it.
pub open spec fn env_assign_from(
    scopes: Seq<ScopeV>,
    idx: int,
    name: Seq<char>,
    v: LoxValueV,
) -> Option<Seq<ScopeV>>
    decreases idx,
{
    if 0 <= idx < scopes.len() {
        if entries_lookup(scopes[idx].entries, name) is Some {
            Option::Some(
                scopes.update(
                    idx,
                    ScopeV {
                        entries: entries_assign(scopes[idx].entries, name, v),
                        parent: scopes[idx].parent,
                    },
                ),
            )
        } else {
            match scopes[idx].parent {
                Option::Some(p) => if 0 <= p < idx {
                    env_assign_from(scopes, p, name, v)
                } else {
                    Option::None
                },
                Option::None => Option::None,
            }
        }
    } else {
        Option::None
    }
}

/// The environment a fresh interpreter starts from: one empty global scope.
pub open spec fn env_init() -> EnvV {
    EnvV { scopes: seq![ScopeV { entries: seq![], parent: Option::None }], current: 0 }
}

/// The environment after entering a block: a new empty scope whose
/// enclosing link is the given scope, made current.
pub open spec fn env_enter(env: EnvV, parent: int) -> EnvV {
    EnvV {
        scopes: env.scopes.push(ScopeV { entries: seq![], parent: Option::Some(parent) }),
        current: env.scopes.len() as int,
    }
}

/// The environment after leaving a block: the scopes created inside it are
/// discarded and the scope that was active before becomes current again.
pub open spec fn env_leave(env: EnvV, saved_current: int, saved_len: int) -> EnvV {
    EnvV { scopes: env.scopes.subrange(0, saved_len), current: saved_current }
}

/// The environment after binding a name in the current scope.
pub open spec fn env_define(env: EnvV, name: Seq<char>, v: LoxValueV) -> EnvV {
    EnvV {
        scopes: env.scopes.update(
            env.current,
            ScopeV {
                entries: env.scopes[env.current].entries.push((name, v)),
                parent: env.scopes[env.current].parent,
            },
        ),
        current: env.current,
    }
}

/// The model of the undefined-variable message for a name.
pub open spec fn undefined_message(name: Seq<char>) -> Seq<char> {
    "Undefined variable '"@ + name + "'."@
}

/// The undefined-variable error for a name token.
pub open spec fn undefined_error(name: TokenV) -> LoxErrorV {
    LoxErrorV::RunTimeError { msg: undefined_message(name.literal->Id_0), line: name.line }
}

/// Mutating a name's binding hits exactly the binding a lookup sees: after
/// the mutation the name resolves to the new value, and a name that
/// resolved to nothing still does.
pub proof fn lemma_entries_assign_lookup(
    es: Seq<(Seq<char>, LoxValueV)>,
    name: Seq<char>,
    v: LoxValueV,
)
    ensures
        entries_lookup(entries_assign(es, name, v), name) == if entries_lookup(es, name) is Some {
            Option::Some(v)
        } else {
            Option::<LoxValueV>::None
        },
    decreases es.len(),
{
    if es.len() == 0 {
    } else if es.last().0 == name {
        let es2 = es.update(es.len() - 1, (name, v));
        assert(es2.last() == (name, v));
    } else {
        lemma_entries_assign_lookup(es.drop_last(), name, v);
        let es2 = entries_assign(es.drop_last(), name, v).push(es.last());
        assert(es2.drop_last() =~= entries_assign(es.drop_last(), name, v));
    }
}

/// Assigning outward from a scope succeeds exactly when the name is
/// visible from it, touches only scopes that bind the name, keeps every
/// parent link, and makes the name resolve to the new value.
pub proof fn lemma_assign_from_props(scopes: Seq<ScopeV>, idx: int, name: Seq<char>, v: LoxValueV)
    requires
        0 <= idx < scopes.len(),
    ensures
        match env_assign_from(scopes, idx, name, v) {
            Option::None => env_lookup_from(scopes, idx, name) is None,
            Option::Some(sc2) => {
                &&& env_lookup_from(scopes, idx, name) is Some
                &&& sc2.len() == scopes.len()
                &&& env_lookup_from(sc2, idx, name) == Option::Some(v)
                &&& forall|j: int|
                    0 <= j < scopes.len() ==> (#[trigger] sc2[j]).parent == scopes[j].parent
                &&& forall|j: int|
                    0 <= j < scopes.len() && entries_lookup(
                        (#[trigger] scopes[j]).entries,
                        name,
                    ) is None ==> sc2[j] == scopes[j]
            },
        },
    decreases idx,
{
    if entries_lookup(scopes[idx].entries, name) is Some {
        lemma_entries_assign_lookup(scopes[idx].entries, name, v);
    } else {
        match scopes[idx].parent {
            Option::Some(p) => {
                if 0 <= p < idx {
                    lemma_assign_from_props(scopes, p, name, v);
                }
            },
            Option::None => {},
        }
    }
}

/// A scope appended past the end of the arena changes no lookup made from
/// an existing scope.
pub proof fn lemma_lookup_push_irrelevant(
    scopes: Seq<ScopeV>,
    b: ScopeV,
    idx: int,
    name: Seq<char>,
)
    requires
        0 <= idx < scopes.len(),
    ensures
        env_lookup_from(scopes.push(b), idx, name) == env_lookup_from(scopes, idx, name),
    decreases idx,
{
    assert(scopes.push(b)[idx] == scopes[idx]);
    match entries_lookup(scopes[idx].entries, name) {
        Option::Some(_) => {},
        Option::None => {
            match scopes[idx].parent {
                Option::Some(p) => {
                    if 0 <= p < idx {
                        lemma_lookup_push_irrelevant(scopes, b, p, name);
                    }
                },
                Option::None => {},
            }
        },
    }
}

/// A scope appended past the end of the arena rides along unchanged
/// through an assignment made from an existing scope.
pub proof fn lemma_assign_push_irrelevant(
    scopes: Seq<ScopeV>,
    b: ScopeV,
    idx: int,
    name: Seq<char>,
    v: LoxValueV,
)
    requires
        0 <= idx < scopes.len(),
    ensures
        match env_assign_from(scopes, idx, name, v) {
            Option::None => env_assign_from(scopes.push(b), idx, name, v) is None,
            Option::Some(sc2) => env_assign_from(scopes.push(b), idx, name, v) == Option::Some(
                sc2.push(b),
            ),
        },
    decreases idx,
{
    assert(scopes.push(b)[idx] == scopes[idx]);
    if entries_lookup(scopes[idx].entries, name) is Some {
        let updated = ScopeV {
            entries: entries_assign(scopes[idx].entries, name, v),
            parent: scopes[idx].parent,
        };
        assert(scopes.push(b).update(idx, updated) =~= scopes.update(idx, updated).push(b));
    } else {
        match scopes[idx].parent {
            Option::Some(p) => {
                if 0 <= p < idx {
                    lemma_assign_push_irrelevant(scopes, b, p, name, v);
                }
            },
            Option::None => {},
        }
    }
}

/// Shadowing: a name defined inside a block hides an outer binding of the
/// same name while the block runs, and the outer binding stands untouched
/// once the block is left.
pub proof fn lemma_block_shadowing(env: EnvV, name: Seq<char>, outer: LoxValueV, inner: LoxValueV)
    requires
        env_wf(env),
        env_lookup(env, name) == Option::Some(outer),
    ensures
        ({
            let entered = env_enter(env, env.current);
            let defined = env_define(entered, name, inner);
            &&& env_lookup(defined, name) == Option::Some(inner)
            &&& env_lookup(
                env_leave(defined, env.current, env.scopes.len() as int),
                name,
            ) == Option::Some(outer)
        }),
{
    let entered = env_enter(env, env.current);
    let defined = env_define(entered, name, inner);
    let block = ScopeV { entries: seq![(name, inner)], parent: Option::Some(env.current) };
    assert(defined.scopes =~~= env.scopes.push(block));
    assert(entries_lookup(block.entries, name) == Option::Some(inner));
    let left = env_leave(defined, env.current, env.scopes.len() as int);
    assert(left.scopes =~~= env.scopes);
}

/// Outward assignment: assigning to an outer name from inside a fresh
/// block always succeeds, adds no binding to the block's own scope, and
/// the new value is what the name resolves to both inside the block and
/// after the block is left.
pub proof fn lemma_block_assign_outward(env: EnvV, name: Seq<char>, prior: LoxValueV, v: LoxValueV)
    requires
        env_wf(env),
        env_lookup(env, name) == Option::Some(prior),
    ensures
        ({
            let entered = env_enter(env, env.current);
            match env_assign_from(entered.scopes, entered.current, name, v) {
                Option::Some(sc2) => {
                    &&& env_lookup_from(sc2, entered.current, name) == Option::Some(v)
                    &&& sc2[entered.current].entries =~= Seq::<(Seq<char>, LoxValueV)>::empty()
                    &&& env_lookup(
                        env_leave(
                            EnvV { scopes: sc2, current: entered.current },
                            env.current,
                            env.scopes.len() as int,
                        ),
                        name,
                    ) == Option::Some(v)
                },
                Option::None => false,
            }
        }),
{
    let len0 = env.scopes.len() as int;
    let cur0 = env.current;
    let entered = env_enter(env, cur0);
    let block = ScopeV { entries: seq![], parent: Option::Some(cur0) };
    assert(entered.scopes =~~= env.scopes.push(block));
    assert(entries_lookup(entered.scopes[len0].entries, name) is None);
    lemma_assign_push_irrelevant(env.scopes, block, cur0, name, v);
    lemma_assign_from_props(env.scopes, cur0, name, v);
    let o2 = env_assign_from(env.scopes, cur0, name, v)->Some_0;
    let sc2 = env_assign_from(entered.scopes, entered.current, name, v)->Some_0;
    assert(sc2 =~~= o2.push(block));
    assert(entries_lookup(sc2[len0].entries, name) is None);
    lemma_lookup_push_irrelevant(o2, block, cur0, name);
    let left = env_leave(EnvV { scopes: sc2, current: entered.current }, cur0, len0);
    assert(left.scopes =~~= o2);
}

/// The latest binding of the name among the first `n` entries of a scope.
fn scope_lookup(es: &Vec<(String, LoxValue)>, n: usize, name: &String) -> (r: Option<LoxValue>)
    requires
        n <= es.len(),
    ensures
        match r {
            Option::Some(v) => entries_lookup(
                es@.map(|i: int, p: (String, LoxValue)| (p.0@, p.1@)).take(n as int),
                name@,
            ) == Option::Some(v@),
            Option::None => entries_lookup(
                es@.map(|i: int, p: (String, LoxValue)| (p.0@, p.1@)).take(n as int),
                name@,
            ) is None,
        },
    decreases n,
{
    let ghost model = es@.map(|i: int, p: (String, LoxValue)| (p.0@, p.1@));
    if n == 0 {
        proof {
            assert(model.take(0) =~= Seq::<(Seq<char>, LoxValueV)>::empty());
        }
        Option::None
    } else {
        proof {
            assert(model.take(n as int).last() == model[n - 1]);
            assert(model.take(n as int).drop_last() =~= model.take(n - 1));
        }
        if es[n - 1].0 == *name {
            Option::Some(es[n - 1].1.duplicate())
        } else {
            scope_lookup(es, n - 1, name)
        }
    }
}

/// The resolution of a name from a scope, walking outward.
fn lookup_from(scopes: &Vec<Scope>, idx: usize, name: &String) -> (r: Option<LoxValue>)
    requires
        idx < scopes.len(),
    ensures
        match r {
            Option::Some(v) => env_lookup_from(
                scopes@.map(|i: int, s: Scope| s@),
                idx as int,
                name@,
            ) == Option::Some(v@),
            Option::None => env_lookup_from(scopes@.map(|i: int, s: Scope| s@), idx as int, name@)
                is None,
        },
    decreases idx,
{
    let sc = &scopes[idx];
    proof {
        assert(sc@.entries.take(sc.entries@.len() as int) =~= sc@.entries);
    }
    match scope_lookup(&sc.entries, sc.entries.len(), name) {
        Option::Some(v) => Option::Some(v),
        Option::None => match sc.parent {
            Option::Some(p) => if p < idx {
                lookup_from(scopes, p, name)
            } else {
                Option::None
            },
            Option::None => Option::None,
        },
    }
}

/// The mutation of the latest binding of the name within one scope's
/// entries; reports whether a binding was found.
fn scope_assign(es: &mut Vec<(String, LoxValue)>, name: &String, v: &LoxValue) -> (found: bool)
    ensures
        final(es)@.map(|i: int, p: (String, LoxValue)| (p.0@, p.1@)) == entries_assign(
            old(es)@.map(|i: int, p: (String, LoxValue)| (p.0@, p.1@)),
            name@,
            v@,
        ),
        found == (entries_lookup(
            old(es)@.map(|i: int, p: (String, LoxValue)| (p.0@, p.1@)),
            name@,
        ) is Some),
    decreases old(es)@.len(),
{
    let ghost model = es@.map(|i: int, p: (String, LoxValue)| (p.0@, p.1@));
    match es.pop() {
        Option::None => {
            proof {
                assert(model.len() == 0);
                assert(final(es)@.map(|i: int, p: (String, LoxValue)| (p.0@, p.1@)) =~= model);
            }
            false
        },
        Option::Some(lastp) => {
            proof {
                assert(model.last() == (lastp.0@, lastp.1@));
                assert(es@.map(|i: int, p: (String, LoxValue)| (p.0@, p.1@)) =~= model.drop_last());
            }
            if lastp.0 == *name {
                es.push((name.clone(), v.duplicate()));
                proof {
                    assert(final(es)@.map(|i: int, p: (String, LoxValue)| (p.0@, p.1@))
                        =~= model.update(model.len() - 1, (name@, v@)));
                }
                true
            } else {
                let found = scope_assign(es, name, v);
                es.push(lastp);
                proof {
                    assert(final(es)@.map(|i: int, p: (String, LoxValue)| (p.0@, p.1@))
                        =~= entries_assign(model.drop_last(), name@, v@).push(model.last()));
                }
                found
            }
        },
    }
}

/// The mutation of the first scope outward from `idx` that binds the name;
/// reports whether any scope in the chain did.
fn assign_from(scopes: &mut Vec<Scope>, idx: usize, name: &String, v: &LoxValue) -> (found: bool)
    requires
        idx < old(scopes)@.len(),
    ensures
        final(scopes)@.len() == old(scopes)@.len(),
        match env_assign_from(old(scopes)@.map(|i: int, s: Scope| s@), idx as int, name@, v@) {
            Option::Some(sc2) => found && final(scopes)@.map(|i: int, s: Scope| s@) == sc2,
            Option::None => !found && final(scopes)@ == old(scopes)@,
        },
    decreases idx,
{
    let ghost model = scopes@.map(|i: int, s: Scope| s@);
    let present = {
        let sc = &scopes[idx];
        proof {
            assert(sc@.entries.take(sc.entries@.len() as int) =~= sc@.entries);
        }
        scope_lookup(&sc.entries, sc.entries.len(), name).is_some()
    };
    if present {
        let sc = &mut scopes[idx];
        scope_assign(&mut sc.entries, name, v);
        proof {
            assert(final(scopes)@.map(|i: int, s: Scope| s@) =~= model.update(
                idx as int,
                ScopeV {
                    entries: entries_assign(model[idx as int].entries, name@, v@),
                    parent: model[idx as int].parent,
                },
            ));
        }
        true
    } else {
        let parent = scopes[idx].parent;
        match parent {
            Option::Some(p) => {
                if p < idx {
                    let found = assign_from(scopes, p, name, v);
                    proof {
                        assert(scopes@.map(|i: int, s: Scope| s@) == model
                            || env_assign_from(model, idx as int, name@, v@) is Some);
                    }
                    found
                } else {
                    false
                }
            },
            Option::None => false,
        }
    }
}

impl Environment {
    /// The starting environment: a single empty global scope.
    pub fn new() -> (e: Environment)
        ensures
            e@ == env_init(),
            env_wf(e@),
    {
        let mut scopes: Vec<Scope> = Vec::new();
        scopes.push(Scope { entries: Vec::new(), parent: Option::None });
        let e = Environment { scopes, current: 0 };
        proof {
            assert(e@.scopes =~~= env_init().scopes);
        }
        e
    }

    /// Enters a scope enclosed by the given one and makes it current,
    /// returning its index.
    pub fn from(&mut self, parent: usize) -> (child: usize)
        requires
            parent < old(self)@.scopes.len(),
        ensures
            final(self)@ == env_enter(old(self)@, parent as int),
            child as int == old(self)@.scopes.len(),
    {
        let child = self.scopes.len();
        self.scopes.push(Scope { entries: Vec::new(), parent: Option::Some(parent) });
        self.current = child;
        proof {
            assert(final(self)@.scopes =~~= env_enter(old(self)@, parent as int).scopes);
        }
        child
    }

    /// Leaves a block: discards the scopes it created and restores the
    /// previously current scope.
    pub fn leave(&mut self, saved_current: usize, saved_len: usize)
        requires
            saved_len <= old(self)@.scopes.len(),
        ensures
            final(self)@ == env_leave(old(self)@, saved_current as int, saved_len as int),
    {
        self.scopes.truncate(saved_len);
        self.current = saved_current;
        proof {
            assert(final(self)@.scopes =~= env_leave(
                old(self)@,
                saved_current as int,
                saved_len as int,
            ).scopes);
        }
    }

    /// Binds a name to a value in the current scope, shadowing without
    /// mutating any outer binding of the same name.
    pub fn define(&mut self, name: String, value: LoxValue)
        requires
            0 <= old(self)@.current < old(self)@.scopes.len(),
        ensures
            final(self)@ == env_define(old(self)@, name@, value@),
    {
        let ghost before = self@;
        let cur = self.current;
        let sc = &mut self.scopes[cur];
        sc.entries.push((name, value));
        proof {
            assert(final(self)@.scopes =~~= env_define(before, name@, value@).scopes);
        }
    }

    /// The value bound to a name, looked up outward from the current scope.
    /// A miss across the whole chain is the undefined-variable error at the
    /// accessing token's line.
    pub fn get(&self, name: &Token) -> (r: Result<LoxValue, LoxError>)
        requires
            0 <= self@.current < self@.scopes.len(),
            name@.literal is Id,
        ensures
            match r {
                Result::Ok(v) => env_lookup(self@, name@.literal->Id_0) == Option::Some(v@),
                Result::Err(e) => env_lookup(self@, name@.literal->Id_0) is None && e@
                    == undefined_error(name@),
            },
    {
        let name_str = match &name.literal {
            LoxType::Id(s) => s,
            _ => unreached(),
        };
        match lookup_from(&self.scopes, self.current, name_str) {
            Option::Some(v) => Result::Ok(v),
            Option::None => {
                proof {
                    reveal_strlit("Undefined variable '");
                    reveal_strlit("'.");
                }
                let msg = String::from_str("Undefined variable '").concat(name_str.as_str()).concat(
                    "'.",
                );
                proof {
                    assert(msg@ =~= undefined_message(name@.literal->Id_0));
                }
                Result::Err(LoxError::RunTimeError { msg, line: name.line })
            },
        }
    }

    /// Mutates the first scope outward from the current one that already
    /// binds the name; never creates a binding. A miss across the whole
    /// chain is the undefined-variable error; success hands back the
    /// assigned value.
    pub fn assign(&mut self, name: &Token, value: LoxValue) -> (r: Result<LoxValue, LoxError>)
        requires
            0 <= old(self)@.current < old(self)@.scopes.len(),
            name@.literal is Id,
        ensures
            final(self)@.current == old(self)@.current,
            match env_assign_from(
                old(self)@.scopes,
                old(self)@.current,
                name@.literal->Id_0,
                value@,
            ) {
                Option::Some(sc2) => final(self)@.scopes == sc2 && (r matches Result::Ok(v) && v@
                    == value@),
                Option::None => final(self)@ == old(self)@ && (r matches Result::Err(e) && e@
                    == undefined_error(name@)),
            },
    {
        let name_str = match &name.literal {
            LoxType::Id(s) => s,
            _ => unreached(),
        };
        let found = assign_from(&mut self.scopes, self.current, name_str, &value);
        if found {
            Result::Ok(value)
        } else {
            proof {
                reveal_strlit("Undefined variable '");
                reveal_strlit("'.");
            }
            let msg = String::from_str("Undefined variable '").concat(name_str.as_str()).concat(
                "'.",
            );
            proof {
                assert(msg@ =~= undefined_message(name@.literal->Id_0));
            }
            Result::Err(LoxError::RunTimeError { msg, line: name.line })
        }
    }
}

} // verus!

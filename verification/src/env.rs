//! Which environment variables a task is granted.
//!
//! A grant is resolved against a snapshot of the environment that the caller
//! hands in: what a listed variable holds is captured at that moment, and a
//! later change of the process environment does not reach the grant.

use crate::cargo::{texts, InheritEnv, InheritEnvView, TaskDetail};
use crate::name_map::NameMap;
use vstd::prelude::*;

verus! {

/// A snapshot of the environment: the value of each variable that is set.
#[derive(Debug, PartialEq, Eq)]
pub struct Environment {
    pub vars: NameMap<String>,
}

impl View for Environment {
    type V = Map<Seq<char>, Seq<char>>;

    /// The characters of each variable's value, by the characters of its name.
    open spec fn view(&self) -> Map<Seq<char>, Seq<char>> {
        self.vars@.map_values(|value: String| value@)
    }
}

impl Environment {
    /// An environment in which no variable is set.
    pub fn new() -> (env: Self)
        ensures
            env@ == Map::<Seq<char>, Seq<char>>::empty(),
    {
        let env = Environment { vars: NameMap::new() };
        assert(env@ =~= Map::<Seq<char>, Seq<char>>::empty());
        env
    }

    /// Sets the variable `name` to `value`.
    pub fn set(&mut self, name: String, value: String)
        ensures
            final(self)@ == old(self)@.insert(name@, value@),
    {
        self.vars.insert(name, value);
        assert(self@ =~= old(self)@.insert(name@, value@));
    }

    /// The value of the variable `name`, where it is set.
    pub fn get(&self, name: &str) -> (value: Option<&String>)
        ensures
            value is Some == self@.dom().contains(name@),
            value is Some ==> value->0@ == self@[name@],
    {
        self.vars.get(name)
    }
}

/// The environment variables that a task is granted.
#[derive(Clone, Debug, PartialEq, Eq)]
pub enum EnvVars {
    /// Every variable of the environment in which the task is started.
    All,
    /// No variable.
    Nothing,
    /// The listed variables, each with the value that was captured for it.
    AllowList(Vec<(String, String)>),
}

/// An [`EnvVars`] with every name and value by its characters.
pub enum EnvVarsView {
    All,
    Nothing,
    AllowList(Seq<(Seq<char>, Seq<char>)>),
}

/// The characters of each name and value of `vars`.
pub open spec fn pairs(vars: Seq<(String, String)>) -> Seq<(Seq<char>, Seq<char>)> {
    vars.map_values(|pair: (String, String)| (pair.0@, pair.1@))
}

impl View for EnvVars {
    type V = EnvVarsView;

    open spec fn view(&self) -> EnvVarsView {
        match self {
            EnvVars::All => EnvVarsView::All,
            EnvVars::Nothing => EnvVarsView::Nothing,
            EnvVars::AllowList(vars) => EnvVarsView::AllowList(pairs(vars@)),
        }
    }
}

/// What `env` gives for one name: the name with its value where the variable
/// is set, nothing where it is not.
pub open spec fn capture(env: Map<Seq<char>, Seq<char>>) -> spec_fn(Seq<char>) -> Option<
    (Seq<char>, Seq<char>),
> {
    |name: Seq<char>|
        if env.dom().contains(name) {
            Some((name, env[name]))
        } else {
            None
        }
}

/// The variables among `names` that are set in `env`, each with its value, in
/// the order of `names`.
pub open spec fn captured(names: Seq<Seq<char>>, env: Map<Seq<char>, Seq<char>>) -> Seq<
    (Seq<char>, Seq<char>),
> {
    names.filter_map(capture(env))
}

/// The grant that a declaration stands for in the environment `env`.
pub open spec fn resolve_env(
    declaration: Option<InheritEnvView>,
    env: Map<Seq<char>, Seq<char>>,
) -> EnvVarsView {
    match declaration {
        None => EnvVarsView::Nothing,
        Some(InheritEnvView::Bool(all)) => if all {
            EnvVarsView::All
        } else {
            EnvVarsView::Nothing
        },
        Some(InheritEnvView::AllowList(names)) => EnvVarsView::AllowList(captured(names, env)),
    }
}

/// A declaration that may be missing, by its view.
pub open spec fn declared(declaration: Option<&InheritEnv>) -> Option<InheritEnvView> {
    match declaration {
        Some(d) => Some(d@),
        None => None,
    }
}

/// Resolves a declaration against the environment `env`.
///
/// A missing declaration grants nothing, `Bool(true)` everything and
/// `Bool(false)` nothing. A list grants the listed variables that are set, with
/// the values that `env` holds for them, in the order of the list; a listed
/// variable that is not set is passed over.
pub fn resolve(declaration: Option<&InheritEnv>, env: &Environment) -> (grant: EnvVars)
    ensures
        grant@ == resolve_env(declared(declaration), env@),
{
    match declaration {
        None => EnvVars::Nothing,
        Some(InheritEnv::Bool(true)) => EnvVars::All,
        Some(InheritEnv::Bool(false)) => EnvVars::Nothing,
        Some(InheritEnv::AllowList(names)) => {
            let ghost all = texts(names@);
            let mut vars: Vec<(String, String)> = Vec::new();
            let mut i: usize = 0;
            assert(all.take(0) =~= Seq::<Seq<char>>::empty());
            while i < names.len()
                invariant
                    i <= names.len(),
                    all == texts(names@),
                    pairs(vars@) == captured(all.take(i as int), env@),
                decreases names.len() - i,
            {
                let name = &names[i];
                let ghost before = pairs(vars@);
                proof {
                    all.lemma_filter_map_take_succ(capture(env@), i as int);
                }
                match env.get(name.as_str()) {
                    Some(value) => {
                        vars.push((name.clone(), value.clone()));
                        assert(pairs(vars@) =~= before + seq![(name@, value@)]);
                    },
                    None => {
                        assert(before + Seq::<(Seq<char>, Seq<char>)>::empty() =~= before);
                    },
                }
                i += 1;
            }
            assert(all.take(names.len() as int) =~= all);
            EnvVars::AllowList(vars)
        },
    }
}

/// The grant of a task: what its permissions declare, resolved against `env`.
/// A task without permissions is granted nothing.
pub fn build_sandbox_env(task_details: &TaskDetail, env: &Environment) -> (grant: EnvVars)
    ensures
        grant@ == resolve_env(task_details@.inherit_env(), env@),
{
    match &task_details.permissions {
        Some(permissions) => resolve(permissions.inherit_env.as_ref(), env),
        None => EnvVars::Nothing,
    }
}

/// A grant depends on the declaration and on what the environment holds for
/// the declared names, and on nothing else: two environments that agree on
/// every declared name give the same grant. So resolving a declaration once
/// more against an environment that has not changed gives the same grant.
pub proof fn lemma_resolution_is_determined(
    declaration: Option<InheritEnvView>,
    first: Map<Seq<char>, Seq<char>>,
    second: Map<Seq<char>, Seq<char>>,
)
    requires
        declaration matches Some(InheritEnvView::AllowList(names)) ==> forall|i: int|
            0 <= i < names.len() ==> capture(first)(#[trigger] names[i]) == capture(second)(
                names[i],
            ),
    ensures
        resolve_env(declaration, first) == resolve_env(declaration, second),
{
    if let Some(InheritEnvView::AllowList(names)) = declaration {
        lemma_captured_is_determined(names, first, second);
    }
}

/// Two environments that agree on every name of `names` give the same
/// captured pairs.
proof fn lemma_captured_is_determined(
    names: Seq<Seq<char>>,
    first: Map<Seq<char>, Seq<char>>,
    second: Map<Seq<char>, Seq<char>>,
)
    requires
        forall|i: int|
            0 <= i < names.len() ==> capture(first)(#[trigger] names[i]) == capture(second)(
                names[i],
            ),
    ensures
        captured(names, first) == captured(names, second),
    decreases names.len(),
{
    if names.len() > 0 {
        let rest = names.drop_last();
        assert forall|i: int| 0 <= i < rest.len() implies capture(first)(#[trigger] rest[i])
            == capture(second)(rest[i]) by {
            assert(rest[i] == names[i]);
        }
        lemma_captured_is_determined(rest, first, second);
        assert(names.last() == names[names.len() - 1]);
    }
}

/// Every pair of a grant is a listed name that is set, with the value that the
/// environment holds for it.
pub proof fn lemma_captured_pairs(
    names: Seq<Seq<char>>,
    env: Map<Seq<char>, Seq<char>>,
    i: int,
)
    requires
        0 <= i < captured(names, env).len(),
    ensures
        names.contains(captured(names, env)[i].0),
        env.dom().contains(captured(names, env)[i].0),
        captured(names, env)[i].1 == env[captured(names, env)[i].0],
    decreases names.len(),
{
    if names.len() > 0 {
        let rest = names.drop_last();
        let last = names.last();
        assert(names[names.len() - 1] == last);
        if i < captured(rest, env).len() {
            lemma_captured_pairs(rest, env, i);
            let k = choose|k: int| 0 <= k < rest.len() && rest[k] == captured(rest, env)[i].0;
            assert(names[k] == rest[k]);
        }
    }
}

/// A listed name that is not set leaves no trace in the grant: no pair of the
/// grant bears that name.
pub proof fn lemma_unset_name_is_left_out(
    names: Seq<Seq<char>>,
    env: Map<Seq<char>, Seq<char>>,
    name: Seq<char>,
)
    requires
        !env.dom().contains(name),
    ensures
        forall|i: int|
            0 <= i < captured(names, env).len() ==> (#[trigger] captured(names, env)[i]).0 != name,
{
    assert forall|i: int| 0 <= i < captured(names, env).len() implies (#[trigger] captured(
        names,
        env,
    )[i]).0 != name by {
        lemma_captured_pairs(names, env, i);
    }
}

/// How often `name` stands in `names`.
pub open spec fn occurrences(names: Seq<Seq<char>>, name: Seq<char>) -> nat {
    names.filter(|n: Seq<char>| n == name).len()
}

/// The pairs of `vars` that bear the name `name`.
pub open spec fn pairs_named(vars: Seq<(Seq<char>, Seq<char>)>, name: Seq<char>) -> Seq<
    (Seq<char>, Seq<char>),
> {
    vars.filter(|pair: (Seq<char>, Seq<char>)| pair.0 == name)
}

/// A name that is set comes into the grant as often as it is listed, each time
/// with the value that the environment holds for it.
pub proof fn lemma_set_name_is_captured(
    names: Seq<Seq<char>>,
    env: Map<Seq<char>, Seq<char>>,
    name: Seq<char>,
)
    requires
        env.dom().contains(name),
    ensures
        pairs_named(captured(names, env), name) == Seq::new(
            occurrences(names, name),
            |i: int| (name, env[name]),
        ),
    decreases names.len(),
{
    reveal(Seq::filter);
    if names.len() == 0 {
        assert(pairs_named(captured(names, env), name) =~= Seq::new(
            occurrences(names, name),
            |i: int| (name, env[name]),
        ));
    } else {
        let rest = names.drop_last();
        let last = names.last();
        lemma_set_name_is_captured(rest, env, name);
        let got = captured(rest, env);
        if env.dom().contains(last) {
            assert(captured(names, env) =~= got.push((last, env[last])));
            assert(got.push((last, env[last])).drop_last() =~= got);
        }
        assert(pairs_named(captured(names, env), name) =~= Seq::new(
            occurrences(names, name),
            |i: int| (name, env[name]),
        ));
    }
}

/// A name that is listed once and set comes into the grant as exactly one
/// pair: the name with the value that the environment holds for it.
pub proof fn lemma_set_name_is_captured_once(
    names: Seq<Seq<char>>,
    env: Map<Seq<char>, Seq<char>>,
    name: Seq<char>,
)
    requires
        env.dom().contains(name),
        occurrences(names, name) == 1,
    ensures
        pairs_named(captured(names, env), name) == seq![(name, env[name])],
{
    lemma_set_name_is_captured(names, env, name);
    assert(Seq::new(1, |i: int| (name, env[name])) =~= seq![(name, env[name])]);
}

} // verus!

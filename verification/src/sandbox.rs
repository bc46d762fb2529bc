//! What a task may use while it runs.
//!
//! The capabilities are plain data. Whoever starts the sandbox hands them to
//! the engine one by one; nothing that is not listed here is granted.

use crate::cargo::texts;
use crate::env::{pairs, EnvVars, EnvVarsView};
use crate::task::TaskDefinition;
use crate::text::catenate;
use vstd::prelude::*;

verus! {

/// A directory of the host that the task sees under a path of its own.
#[derive(Clone, Debug, PartialEq, Eq)]
pub struct Preopen {
    /// The directory on the host.
    pub host_path: String,
    /// The path under which the task sees it.
    pub guest_path: String,
    /// Whether the task may read what lies in it.
    pub read: bool,
    /// Whether the task may change what lies in it.
    pub write: bool,
}

/// A [`Preopen`] with its paths by their characters.
pub struct PreopenView {
    pub host_path: Seq<char>,
    pub guest_path: Seq<char>,
    pub read: bool,
    pub write: bool,
}

impl View for Preopen {
    type V = PreopenView;

    open spec fn view(&self) -> PreopenView {
        PreopenView {
            host_path: self.host_path@,
            guest_path: self.guest_path@,
            read: self.read,
            write: self.write,
        }
    }
}

/// Everything that a task is given for its run.
#[derive(Clone, Debug, PartialEq, Eq)]
pub struct SandboxCapabilities {
    /// The task writes to the standard output of the program that runs it.
    pub inherit_stdout: bool,
    /// The task writes to the standard error of the program that runs it.
    pub inherit_stderr: bool,
    /// The environment variables of the task: with `All` those that are set
    /// when the sandbox is made, with `AllowList` the listed pairs as they
    /// stand here, with `Nothing` none.
    pub env: EnvVars,
    /// The arguments of the task.
    pub args: Vec<String>,
    /// The directories that the task can reach.
    pub preopens: Vec<Preopen>,
    /// One line for each variable that is handed over by name, to be shown to
    /// the operator. A line names the variable and keeps its value back.
    pub trace: Vec<String>,
}

/// A [`SandboxCapabilities`] with its texts by their characters.
pub struct SandboxCapabilitiesView {
    pub inherit_stdout: bool,
    pub inherit_stderr: bool,
    pub env: EnvVarsView,
    pub args: Seq<Seq<char>>,
    pub preopens: Seq<PreopenView>,
    pub trace: Seq<Seq<char>>,
}

impl View for SandboxCapabilities {
    type V = SandboxCapabilitiesView;

    open spec fn view(&self) -> SandboxCapabilitiesView {
        SandboxCapabilitiesView {
            inherit_stdout: self.inherit_stdout,
            inherit_stderr: self.inherit_stderr,
            env: self.env@,
            args: texts(self.args@),
            preopens: self.preopens@.map_values(|p: Preopen| p@),
            trace: texts(self.trace@),
        }
    }
}

/// The line that reports that the variable `name` is handed to a task.
pub open spec fn trace_line(name: Seq<char>) -> Seq<char> {
    "setting environment variable: "@ + name
}

/// The lines that report a grant: one for each pair of a list, in order, and
/// none for any other grant.
pub open spec fn trace_lines(grant: EnvVarsView) -> Seq<Seq<char>> {
    match grant {
        EnvVarsView::AllowList(vars) => vars.map_values(
            |pair: (Seq<char>, Seq<char>)| trace_line(pair.0),
        ),
        _ => Seq::empty(),
    }
}

/// The one directory that a task can reach: the workspace, which the task sees
/// as the root of its file system and may read and change.
pub open spec fn workspace_preopen(workspace_dir: Seq<char>) -> PreopenView {
    PreopenView { host_path: workspace_dir, guest_path: "/"@, read: true, write: true }
}

/// The capabilities of a task with the grant `grant` and the arguments `args`
/// whose workspace is `workspace_dir`.
pub open spec fn capabilities(
    grant: EnvVarsView,
    args: Seq<Seq<char>>,
    workspace_dir: Seq<char>,
) -> SandboxCapabilitiesView {
    SandboxCapabilitiesView {
        inherit_stdout: true,
        inherit_stderr: true,
        env: grant,
        args,
        preopens: seq![workspace_preopen(workspace_dir)],
        trace: trace_lines(grant),
    }
}

/// The variables that a task with the grant `grant` finds set, where `live`
/// is what is set when the sandbox is made.
pub open spec fn exposed(grant: EnvVarsView, live: Seq<(Seq<char>, Seq<char>)>) -> Seq<
    (Seq<char>, Seq<char>),
> {
    match grant {
        EnvVarsView::All => live,
        EnvVarsView::Nothing => Seq::empty(),
        EnvVarsView::AllowList(vars) => vars,
    }
}

/// What a task with a list finds set is the list's captured pairs, whatever is
/// set when the sandbox is made.
pub proof fn lemma_list_is_pinned(
    vars: Seq<(Seq<char>, Seq<char>)>,
    first: Seq<(Seq<char>, Seq<char>)>,
    second: Seq<(Seq<char>, Seq<char>)>,
)
    ensures
        exposed(EnvVarsView::AllowList(vars), first) == vars,
        exposed(EnvVarsView::AllowList(vars), first) == exposed(
            EnvVarsView::AllowList(vars),
            second,
        ),
{
}

/// A copy of `texts`.
pub fn copy_texts(strings: &Vec<String>) -> (copy: Vec<String>)
    ensures
        texts(copy@) == texts(strings@),
{
    let mut copy: Vec<String> = Vec::new();
    let mut i: usize = 0;
    while i < strings.len()
        invariant
            i <= strings.len(),
            texts(copy@) == texts(strings@).take(i as int),
        decreases strings.len() - i,
    {
        let ghost before = texts(copy@);
        copy.push(strings[i].clone());
        assert(texts(copy@) =~= before.push(strings[i as int]@));
        assert(texts(copy@) =~= texts(strings@).take(i + 1));
        i += 1;
    }
    assert(texts(strings@).take(strings.len() as int) =~= texts(strings@));
    copy
}

/// A copy of a grant.
pub fn copy_grant(grant: &EnvVars) -> (copy: EnvVars)
    ensures
        copy@ == grant@,
{
    match grant {
        EnvVars::All => EnvVars::All,
        EnvVars::Nothing => EnvVars::Nothing,
        EnvVars::AllowList(vars) => {
            let mut copy: Vec<(String, String)> = Vec::new();
            let mut i: usize = 0;
            while i < vars.len()
                invariant
                    i <= vars.len(),
                    pairs(copy@) == pairs(vars@).take(i as int),
                decreases vars.len() - i,
            {
                let ghost before = pairs(copy@);
                copy.push((vars[i].0.clone(), vars[i].1.clone()));
                assert(pairs(copy@) =~= before.push((vars[i as int].0@, vars[i as int].1@)));
                assert(pairs(copy@) =~= pairs(vars@).take(i + 1));
                i += 1;
            }
            assert(pairs(vars@).take(vars.len() as int) =~= pairs(vars@));
            EnvVars::AllowList(copy)
        },
    }
}

/// The lines that report the grant `grant`.
fn trace_of(grant: &EnvVars) -> (lines: Vec<String>)
    ensures
        texts(lines@) == trace_lines(grant@),
{
    let mut lines: Vec<String> = Vec::new();
    match grant {
        EnvVars::AllowList(vars) => {
            let ghost wanted = trace_lines(grant@);
            let mut i: usize = 0;
            while i < vars.len()
                invariant
                    i <= vars.len(),
                    wanted == trace_lines(EnvVarsView::AllowList(pairs(vars@))),
                    texts(lines@) == wanted.take(i as int),
                decreases vars.len() - i,
            {
                let ghost before = texts(lines@);
                lines.push(catenate("setting environment variable: ", vars[i].0.as_str()));
                assert(texts(lines@) =~= before.push(trace_line(vars[i as int].0@)));
                assert(texts(lines@) =~= wanted.take(i + 1));
                i += 1;
            }
            assert(wanted.take(vars.len() as int) =~= wanted);
        },
        _ => {
            assert(texts(lines@) =~= Seq::<Seq<char>>::empty());
        },
    }
    lines
}

/// The capabilities with which the task `task` runs on the arguments `args`
/// in the workspace `workspace_dir`.
///
/// The task writes to the caller's standard streams, gets the environment
/// variables of its grant and no others, gets `args` as they are, and reaches
/// the workspace as its root directory and nothing outside it.
pub fn build_context(task: &TaskDefinition, args: &Vec<String>, workspace_dir: &str) -> (caps:
    SandboxCapabilities)
    ensures
        caps@ == capabilities(task.env@, texts(args@), workspace_dir@),
{
    let mut preopens: Vec<Preopen> = Vec::new();
    preopens.push(
        Preopen {
            host_path: workspace_dir.to_owned(),
            guest_path: "/".to_owned(),
            read: true,
            write: true,
        },
    );
    assert(preopens@.map_values(|p: Preopen| p@) =~= seq![workspace_preopen(workspace_dir@)]);
    SandboxCapabilities {
        inherit_stdout: true,
        inherit_stderr: true,
        env: copy_grant(&task.env),
        args: copy_texts(args),
        preopens,
        trace: trace_of(&task.env),
    }
}

} // verus!

//! How the compiler is called on a workspace, and where it leaves a task.

use crate::cargo::texts;
use crate::path::{join, joined};
use crate::text::catenate;
use vstd::prelude::*;

verus! {

/// A call of the compiler.
///
/// The compiler runs in the environment of the program that starts it. What a
/// task is granted decides what the task sees while it runs in its sandbox;
/// it neither adds to nor takes from what the compiler sees while it builds
/// the task. So a variable that a task is granted reaches the compiler like
/// any other variable that is set, and a task that is granted nothing is
/// still built with the caller's environment.
#[derive(Clone, Debug, PartialEq, Eq)]
pub struct CompileCommand {
    /// The program to start.
    pub program: String,
    /// Its arguments.
    pub args: Vec<String>,
    /// The directory in which it is started.
    pub current_dir: String,
    /// Whether the compiler gets the environment of the program that starts
    /// it.
    pub inherit_env: bool,
}

/// A [`CompileCommand`] with its texts by their characters.
pub struct CompileCommandView {
    pub program: Seq<char>,
    pub args: Seq<Seq<char>>,
    pub current_dir: Seq<char>,
    pub inherit_env: bool,
}

impl View for CompileCommand {
    type V = CompileCommandView;

    open spec fn view(&self) -> CompileCommandView {
        CompileCommandView {
            program: self.program@,
            args: texts(self.args@),
            current_dir: self.current_dir@,
            inherit_env: self.inherit_env,
        }
    }
}

/// The platform for which tasks are built.
pub open spec fn target_triple() -> Seq<char> {
    "wasm32-wasip2"@
}

/// The directory into which the compiler builds: `target`, beside the
/// workspace.
pub open spec fn target_dir_of(workspace_dir: Seq<char>) -> Seq<char> {
    joined(workspace_dir, "../target"@)
}

/// The call that builds the tasks of the workspace `workspace_dir`. The
/// compiler is started in the workspace, with the caller's environment.
pub open spec fn compile_call(workspace_dir: Seq<char>) -> CompileCommandView {
    CompileCommandView {
        program: "cargo"@,
        args: seq![
            "+beta"@,
            "build"@,
            "--target"@,
            target_triple(),
            "--target-dir"@,
            target_dir_of(workspace_dir),
        ],
        current_dir: workspace_dir,
        inherit_env: true,
    }
}

/// The file in which the compiler leaves the task `task_name`.
pub open spec fn artifact_of(workspace_dir: Seq<char>, task_name: Seq<char>) -> Seq<char> {
    joined(target_dir_of(workspace_dir), "wasm32-wasip2/debug/"@ + task_name + ".wasm"@)
}

/// The directory into which the compiler builds.
pub fn target_dir(workspace_dir: &str) -> (dir: String)
    ensures
        dir@ == target_dir_of(workspace_dir@),
{
    join(workspace_dir, "../target")
}

/// The call that builds the tasks of the workspace `workspace_dir`.
pub fn compile_command(workspace_dir: &str) -> (command: CompileCommand)
    ensures
        command@ == compile_call(workspace_dir@),
{
    let mut args: Vec<String> = Vec::new();
    args.push("+beta".to_owned());
    args.push("build".to_owned());
    args.push("--target".to_owned());
    args.push("wasm32-wasip2".to_owned());
    args.push("--target-dir".to_owned());
    args.push(target_dir(workspace_dir));
    assert(texts(args@) =~= compile_call(workspace_dir@).args);
    CompileCommand {
        program: "cargo".to_owned(),
        args,
        current_dir: workspace_dir.to_owned(),
        inherit_env: true,
    }
}

/// The file in which the compiler leaves the task `task_name`.
pub fn artifact_path(workspace_dir: &str, task_name: &str) -> (path: String)
    ensures
        path@ == artifact_of(workspace_dir@, task_name@),
{
    let head = catenate("wasm32-wasip2/debug/", task_name);
    let file = catenate(head.as_str(), ".wasm");
    join(target_dir(workspace_dir).as_str(), file.as_str())
}

} // verus!

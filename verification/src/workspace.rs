//! The workspace in which tasks are built: what it holds and how it is made.
//!
//! A workspace is thrown away and made anew for every run. The library plans
//! the steps; the caller carries them out in order and stops at the first that
//! fails.

use crate::cargo::{Manifest, TaskDetail};
use crate::error::{TaskError, TaskErrorView};
use crate::name_map::{holds_at, lemma_sorted_position_unique, NameMap};
use crate::path::{is_component, is_component_name, join, joined};
use crate::task::{
    resolves_all, source_file, source_file_name, TaskDefinition, TaskDefinitionView,
};
use crate::text::{lemma_precedes_irreflexive, precedes};
use vstd::prelude::*;

verus! {

/// The tasks for which a workspace is made.
#[derive(Debug, PartialEq, Eq)]
pub enum Selection {
    /// One task.
    Single(TaskDefinition),
    /// Every task of the project.
    All(NameMap<TaskDefinition>),
}

impl Selection {
    /// The selected tasks in the order in which the workspace lists them.
    pub open spec fn tasks(&self) -> Seq<TaskDefinitionView> {
        match self {
            Selection::Single(task) => seq![task@],
            Selection::All(tasks) => tasks.entries().map_values(
                |entry: (Seq<char>, TaskDefinition)| entry.1@,
            ),
        }
    }

    /// The number of selected tasks.
    pub fn len(&self) -> (n: usize)
        ensures
            n == self.tasks().len(),
    {
        match self {
            Selection::Single(_) => 1,
            Selection::All(tasks) => tasks.len(),
        }
    }

    /// The selected task at position `i`.
    pub fn task_at(&self, i: usize) -> (task: &TaskDefinition)
        requires
            i < self.tasks().len(),
        ensures
            task@ == self.tasks()[i as int],
    {
        match self {
            Selection::Single(task) => task,
            Selection::All(tasks) => tasks.value_at(i),
        }
    }
}

/// The names of `tasks`, in order.
pub open spec fn names_of(tasks: Seq<TaskDefinitionView>) -> Seq<Seq<char>> {
    tasks.map_values(|task: TaskDefinitionView| task.name)
}

/// The dependencies that the tasks share, as pairs of name and version
/// requirement in the order of the names; `None` where the manifest declares
/// none.
pub open spec fn shared_dependencies(dependencies: Option<NameMap<String>>) -> Option<
    Seq<(Seq<char>, Seq<char>)>,
> {
    match dependencies {
        Some(deps) => Some(deps.entries().map_values(|dep: (Seq<char>, String)| (dep.0, dep.1@))),
        None => None,
    }
}

/// The head of a build descriptor: the package that holds the tasks. Its name
/// is one that no project bears.
pub open spec fn package_section() -> Seq<char> {
    "\n    [package]\n    name = \"_tasks\"\n    version = \"0.1.0\"\n    edition = \"2021\"\n    \n"@
}

/// Where the source of the task `name` lies, as seen from the workspace.
pub open spec fn target_path(name: Seq<char>) -> Seq<char> {
    "src/"@ + source_file(name)
}

/// The build target of the task `name`: a binary of that name whose source is
/// the task's file in the workspace.
pub open spec fn target_section(name: Seq<char>) -> Seq<char> {
    "\n            [[bin]]\n            name = \""@ + name + "\"\n            path = \""@
        + target_path(name) + "\"\n            \n"@
}

/// The build targets of the tasks `names`, in order.
pub open spec fn target_sections(names: Seq<Seq<char>>) -> Seq<char>
    decreases names.len(),
{
    if names.len() == 0 {
        Seq::empty()
    } else {
        target_sections(names.drop_last()) + target_section(names.last())
    }
}

/// The line that declares the dependency `name` with the requirement
/// `version`, both as they stand in the manifest.
pub open spec fn dependency_line(name: Seq<char>, version: Seq<char>) -> Seq<char> {
    name + " = \""@ + version + "\"\n"@
}

/// The lines of the dependencies `deps`, in order.
pub open spec fn dependency_lines(deps: Seq<(Seq<char>, Seq<char>)>) -> Seq<char>
    decreases deps.len(),
{
    if deps.len() == 0 {
        Seq::empty()
    } else {
        dependency_lines(deps.drop_last()) + dependency_line(deps.last().0, deps.last().1)
    }
}

/// The table of dependencies: its head and one line for each dependency where
/// the manifest declares shared dependencies, nothing where it declares none.
pub open spec fn dependencies_section(deps: Option<Seq<(Seq<char>, Seq<char>)>>) -> Seq<char> {
    match deps {
        Some(deps) => "[dependencies]\n"@ + dependency_lines(deps),
        None => Seq::empty(),
    }
}

/// The build descriptor of a workspace: the package, one target for each task
/// of `names`, and the shared dependencies.
pub open spec fn descriptor(
    names: Seq<Seq<char>>,
    deps: Option<Seq<(Seq<char>, Seq<char>)>>,
) -> Seq<char> {
    package_section() + target_sections(names) + dependencies_section(deps)
}

/// Writes the build descriptor for the tasks of `selection` and the shared
/// dependencies `dependencies`.
pub fn render_descriptor(selection: &Selection, dependencies: Option<&NameMap<String>>) -> (text:
    String)
    ensures
        text@ == descriptor(
            names_of(selection.tasks()),
            shared_dependencies(
                match dependencies {
                    Some(deps) => Some(*deps),
                    None => None,
                },
            ),
        ),
{
    let ghost names = names_of(selection.tasks());
    let mut text =
        "\n    [package]\n    name = \"_tasks\"\n    version = \"0.1.0\"\n    edition = \"2021\"\n    \n".to_owned();
    let n: usize = selection.len();
    let mut i: usize = 0;
    assert(names.take(0) =~= Seq::<Seq<char>>::empty());
    assert(text@ =~= package_section() + target_sections(names.take(0)));
    while i < n
        invariant
            n == selection.tasks().len(),
            names == names_of(selection.tasks()),
            i <= n,
            text@ == package_section() + target_sections(names.take(i as int)),
        decreases n - i,
    {
        let task = selection.task_at(i);
        let ghost before = text@;
        let ghost name = task.name@;
        text.append("\n            [[bin]]\n            name = \"");
        text.append(task.name.as_str());
        text.append("\"\n            path = \"");
        text.append("src/");
        text.append(source_file_name(task.name.as_str()).as_str());
        text.append("\"\n            \n");
        proof {
            assert(names.take(i + 1).drop_last() =~= names.take(i as int));
            assert(names.take(i + 1).last() == name);
            assert(text@ =~= before + target_section(name));
            assert(text@ =~= package_section() + target_sections(names.take(i + 1)));
        }
        i += 1;
    }
    assert(names.take(n as int) =~= names);
    let ghost targets = text@;
    match dependencies {
        Some(deps) => {
            let ghost wanted = shared_dependencies(Some(*deps))->0;
            text.append("[dependencies]\n");
            let m: usize = deps.len();
            let mut k: usize = 0;
            assert(wanted.take(0) =~= Seq::<(Seq<char>, Seq<char>)>::empty());
            assert(text@ =~= targets + ("[dependencies]\n"@ + dependency_lines(wanted.take(0))));
            while k < m
                invariant
                    m == deps.entries().len(),
                    wanted == shared_dependencies(Some(*deps))->0,
                    k <= m,
                    text@ == targets + ("[dependencies]\n"@ + dependency_lines(
                        wanted.take(k as int),
                    )),
                decreases m - k,
            {
                let ghost before = text@;
                let name = deps.name_at(k);
                let version = deps.value_at(k);
                text.append(name.as_str());
                text.append(" = \"");
                text.append(version.as_str());
                text.append("\"\n");
                proof {
                    assert(wanted.take(k + 1).drop_last() =~= wanted.take(k as int));
                    assert(wanted.take(k + 1).last() == (name@, version@));
                    assert(text@ =~= before + dependency_line(name@, version@));
                    assert(text@ =~= targets + ("[dependencies]\n"@ + dependency_lines(
                        wanted.take(k + 1),
                    )));
                }
                k += 1;
            }
            assert(wanted.take(m as int) =~= wanted);
        },
        None => {
            assert(text@ =~= targets + Seq::<char>::empty());
        },
    }
    text
}

/// One step in the making of a workspace.
#[derive(Clone, Debug, PartialEq, Eq)]
pub enum Step {
    /// Delete the directory with all that lies in it, where it exists.
    RemoveTree(String),
    /// Make the directory, and those above it that are missing.
    CreateDir(String),
    /// Copy one file.
    CopyFile { from: String, to: String },
    /// Write a file with the given contents.
    WriteFile { path: String, contents: String },
}

/// A [`Step`] with its texts by their characters.
pub enum StepView {
    RemoveTree(Seq<char>),
    CreateDir(Seq<char>),
    CopyFile { from: Seq<char>, to: Seq<char> },
    WriteFile { path: Seq<char>, contents: Seq<char> },
}

impl View for Step {
    type V = StepView;

    open spec fn view(&self) -> StepView {
        match self {
            Step::RemoveTree(path) => StepView::RemoveTree(path@),
            Step::CreateDir(path) => StepView::CreateDir(path@),
            Step::CopyFile { from, to } => StepView::CopyFile { from: from@, to: to@ },
            Step::WriteFile { path, contents } => StepView::WriteFile {
                path: path@,
                contents: contents@,
            },
        }
    }
}

/// How a workspace is made: where it lies, and the steps that make it.
#[derive(Clone, Debug, PartialEq, Eq)]
pub struct WorkspacePlan {
    /// The directory of the workspace.
    pub workspace_dir: String,
    /// The steps, to be carried out in order.
    pub steps: Vec<Step>,
}

/// A [`WorkspacePlan`] with its texts by their characters.
pub struct WorkspacePlanView {
    pub workspace_dir: Seq<char>,
    pub steps: Seq<StepView>,
}

impl View for WorkspacePlan {
    type V = WorkspacePlanView;

    open spec fn view(&self) -> WorkspacePlanView {
        WorkspacePlanView {
            workspace_dir: self.workspace_dir@,
            steps: self.steps@.map_values(|step: Step| step@),
        }
    }
}

/// The workspace that belongs to the output directory `root_dir`.
pub open spec fn workspace_dir_of(root_dir: Seq<char>) -> Seq<char> {
    joined(root_dir, "ws"@)
}

/// The directory of a workspace that holds the sources of the tasks.
pub open spec fn sources_dir_of(workspace_dir: Seq<char>) -> Seq<char> {
    joined(workspace_dir, "src"@)
}

/// The place of the build descriptor in a workspace.
pub open spec fn descriptor_path_of(workspace_dir: Seq<char>) -> Seq<char> {
    joined(workspace_dir, "Cargo.toml"@)
}

/// The step that brings the source of `task` into the workspace: from its
/// place in the project `project_dir` to the file that bears the task's name.
pub open spec fn copy_step(
    project_dir: Seq<char>,
    sources_dir: Seq<char>,
    task: TaskDefinitionView,
) -> StepView {
    StepView::CopyFile {
        from: joined(project_dir, task.path),
        to: joined(sources_dir, source_file(task.name)),
    }
}

/// The steps that make the workspace under `root_dir` for the tasks `tasks`
/// of the project `project_dir`: clear what an earlier run has left, make the
/// directories, copy each task's source, write the build descriptor.
pub open spec fn planned_steps(
    root_dir: Seq<char>,
    project_dir: Seq<char>,
    tasks: Seq<TaskDefinitionView>,
    deps: Option<Seq<(Seq<char>, Seq<char>)>>,
) -> Seq<StepView> {
    let workspace_dir = workspace_dir_of(root_dir);
    let sources_dir = sources_dir_of(workspace_dir);
    seq![
        StepView::RemoveTree(workspace_dir),
        StepView::CreateDir(workspace_dir),
        StepView::CreateDir(sources_dir),
    ] + tasks.map_values(|task: TaskDefinitionView| copy_step(project_dir, sources_dir, task))
        + seq![
        StepView::WriteFile {
            path: descriptor_path_of(workspace_dir),
            contents: descriptor(names_of(tasks), deps),
        },
    ]
}

/// The first of `names` that is no single component of a path, if there is
/// one.
pub open spec fn invalid_name(names: Seq<Seq<char>>) -> Option<Seq<char>>
    decreases names.len(),
{
    if names.len() == 0 {
        None
    } else if !is_component(names[0]) {
        Some(names[0])
    } else {
        invalid_name(names.drop_first())
    }
}

/// The plan for the tasks `tasks`: the steps of [`planned_steps`] where the
/// name of every task is a single component of a path, so that each source
/// gets a file of its own in the workspace and the task's build target points
/// at it. Where a name is none, there is no plan, and the error holds the
/// first such name.
pub open spec fn planned(
    root_dir: Seq<char>,
    project_dir: Seq<char>,
    tasks: Seq<TaskDefinitionView>,
    deps: Option<Seq<(Seq<char>, Seq<char>)>>,
) -> Result<Seq<StepView>, TaskErrorView> {
    match invalid_name(names_of(tasks)) {
        Some(name) => Err(TaskErrorView::InvalidName(name)),
        None => Ok(planned_steps(root_dir, project_dir, tasks, deps)),
    }
}

/// No name is invalid exactly where every name is a component; an invalid
/// name is one of the names, is no component, and comes after components only.
pub proof fn lemma_invalid_name(names: Seq<Seq<char>>)
    ensures
        invalid_name(names) is None <==> forall|i: int|
            0 <= i < names.len() ==> is_component(#[trigger] names[i]),
        invalid_name(names) matches Some(name) ==> exists|i: int|
            0 <= i < names.len() && #[trigger] names[i] == name && !is_component(name) && forall|
                j: int,
            | 0 <= j < i ==> is_component(#[trigger] names[j]),
    decreases names.len(),
{
    if names.len() > 0 {
        let rest = names.drop_first();
        lemma_invalid_name(rest);
        if is_component(names[0]) {
            assert forall|i: int| 0 <= i < rest.len() implies rest[i] == names[i + 1] by {}
            if invalid_name(rest) is None {
                assert forall|i: int| 0 <= i < names.len() implies is_component(
                    #[trigger] names[i],
                ) by {
                    if i > 0 {
                        assert(rest[i - 1] == names[i]);
                    }
                }
            } else {
                let name = invalid_name(rest)->0;
                let k = choose|i: int|
                    0 <= i < rest.len() && #[trigger] rest[i] == name && !is_component(name)
                        && forall|j: int| 0 <= j < i ==> is_component(#[trigger] rest[j]);
                assert(names[k + 1] == name);
                assert forall|j: int| 0 <= j < k + 1 implies is_component(#[trigger] names[j]) by {
                    if j > 0 {
                        assert(rest[j - 1] == names[j]);
                    }
                }
            }
        } else {
            assert(names[0] == invalid_name(names)->0);
        }
    }
}

/// Plans the workspace under `root_dir` for the selected tasks of the project
/// that lies in `project_dir` and has the manifest `manifest`.
///
/// A task whose name is no single component of a path is refused with
/// [`TaskError::InvalidName`]: its source would not get a file of its own in
/// the workspace. No step is planned then.
pub fn build_task_workspace(
    manifest: &Manifest,
    root_dir: &str,
    project_dir: &str,
    selection: &Selection,
) -> (r: Result<WorkspacePlan, TaskError>)
    ensures
        match planned(
            root_dir@,
            project_dir@,
            selection.tasks(),
            shared_dependencies(manifest.task_dependencies),
        ) {
            Ok(steps) => r is Ok && r->Ok_0@.workspace_dir == workspace_dir_of(root_dir@)
                && r->Ok_0@.steps == steps,
            Err(error) => r is Err && r->Err_0@ == error,
        },
{
    let ghost names = names_of(selection.tasks());
    let count: usize = selection.len();
    let mut checked: usize = 0;
    assert(names.skip(0) =~= names);
    while checked < count
        invariant
            count == selection.tasks().len(),
            names == names_of(selection.tasks()),
            checked <= count,
            invalid_name(names) == invalid_name(names.skip(checked as int)),
        decreases count - checked,
    {
        let task = selection.task_at(checked);
        proof {
            assert(names.skip(checked as int)[0] == task.name@);
            assert(names.skip(checked as int).drop_first() =~= names.skip(checked + 1));
        }
        if !is_component_name(task.name.as_str()) {
            return Err(TaskError::InvalidName(task.name.clone()));
        }
        checked += 1;
    }
    assert(names.skip(count as int).len() == 0);
    let workspace_dir = join(root_dir, "ws");
    let sources_dir = join(workspace_dir.as_str(), "src");
    let ghost tasks = selection.tasks();
    let ghost copies = tasks.map_values(
        |task: TaskDefinitionView| copy_step(project_dir@, sources_dir@, task),
    );
    let ghost head = seq![
        StepView::RemoveTree(workspace_dir@),
        StepView::CreateDir(workspace_dir@),
        StepView::CreateDir(sources_dir@),
    ];
    let mut steps: Vec<Step> = Vec::new();
    steps.push(Step::RemoveTree(workspace_dir.clone()));
    steps.push(Step::CreateDir(workspace_dir.clone()));
    steps.push(Step::CreateDir(sources_dir.clone()));
    let n: usize = selection.len();
    let mut i: usize = 0;
    assert(steps@.map_values(|step: Step| step@) =~= head + copies.take(0));
    while i < n
        invariant
            n == selection.tasks().len(),
            tasks == selection.tasks(),
            copies == tasks.map_values(
                |task: TaskDefinitionView| copy_step(project_dir@, sources_dir@, task),
            ),
            i <= n,
            steps@.map_values(|step: Step| step@) == head + copies.take(i as int),
        decreases n - i,
    {
        let task = selection.task_at(i);
        let ghost before = steps@.map_values(|step: Step| step@);
        let from = join(project_dir, task.path.as_str());
        let to = join(sources_dir.as_str(), source_file_name(task.name.as_str()).as_str());
        steps.push(Step::CopyFile { from, to });
        proof {
            assert(steps@.map_values(|step: Step| step@) =~= before.push(copies[i as int]));
            assert(steps@.map_values(|step: Step| step@) =~= head + copies.take(i + 1));
        }
        i += 1;
    }
    assert(copies.take(n as int) =~= copies);
    let ghost before = steps@.map_values(|step: Step| step@);
    let contents = render_descriptor(
        selection,
        match &manifest.task_dependencies {
            Some(deps) => Some(deps),
            None => None,
        },
    );
    let path = join(workspace_dir.as_str(), "Cargo.toml");
    let ghost last = StepView::WriteFile { path: path@, contents: contents@ };
    steps.push(Step::WriteFile { path, contents });
    assert(steps@.map_values(|step: Step| step@) =~= before.push(last));
    assert(before.push(last) =~= head + copies + seq![last]);
    Ok(WorkspacePlan { workspace_dir, steps })
}

/// A plan begins by clearing the workspace, so that nothing of an earlier run
/// is left when the workspace is filled, and ends by writing the descriptor.
/// Between the two it copies one file for each task and nothing else.
pub proof fn lemma_plan_shape(
    root_dir: Seq<char>,
    project_dir: Seq<char>,
    tasks: Seq<TaskDefinitionView>,
    deps: Option<Seq<(Seq<char>, Seq<char>)>>,
)
    ensures
        planned_steps(root_dir, project_dir, tasks, deps).len() == tasks.len() + 4,
        planned_steps(root_dir, project_dir, tasks, deps)[0] == StepView::RemoveTree(
            workspace_dir_of(root_dir),
        ),
        forall|i: int|
            0 <= i < tasks.len() ==> #[trigger] planned_steps(root_dir, project_dir, tasks, deps)[3
                + i] == copy_step(
                project_dir,
                sources_dir_of(workspace_dir_of(root_dir)),
                tasks[i],
            ),
        planned_steps(root_dir, project_dir, tasks, deps).last() == (StepView::WriteFile {
            path: descriptor_path_of(workspace_dir_of(root_dir)),
            contents: descriptor(names_of(tasks), deps),
        }),
{
}

/// The tasks of a map that holds each task under the task's own name.
pub open spec fn keyed_by_name(entries: Seq<(Seq<char>, TaskDefinition)>) -> bool {
    forall|i: int| 0 <= i < entries.len() ==> (#[trigger] entries[i]).1@.name == entries[i].0
}

/// The tasks that [`resolve_tasks`](crate::task::resolve_tasks) gives stand
/// each under its own name.
pub proof fn lemma_resolved_tasks_are_keyed(
    tasks: NameMap<TaskDefinition>,
    declared: Map<Seq<char>, TaskDetail>,
    files: Seq<Seq<char>>,
    env: Map<Seq<char>, Seq<char>>,
)
    requires
        tasks.well_formed(),
        resolves_all(tasks@, declared, files, env),
    ensures
        keyed_by_name(tasks.entries()),
{
    let entries = tasks.entries();
    assert forall|i: int| 0 <= i < entries.len() implies (#[trigger] entries[i]).1@.name
        == entries[i].0 by {
        let name = entries[i].0;
        assert(holds_at(entries, i, name));
        lemma_sorted_position_unique(
            entries,
            i,
            choose|k: int| holds_at(entries, k, name),
            name,
        );
        assert(tasks@.dom().contains(name));
        assert(tasks@[name] == entries[i].1);
    }
}

/// Where every task of a project is selected, and each stands under its own
/// name, no two selected tasks bear the same name: the workspace gets one
/// source file and one build target for each task, however often it is made.
pub proof fn lemma_one_target_per_task(tasks: NameMap<TaskDefinition>)
    requires
        tasks.well_formed(),
        keyed_by_name(tasks.entries()),
    ensures
        names_of(Selection::All(tasks).tasks()).no_duplicates(),
{
    let entries = tasks.entries();
    let names = names_of(Selection::All(tasks).tasks());
    assert forall|i: int, j: int| 0 <= i < names.len() && 0 <= j < names.len() && i != j implies names[i]
        != names[j] by {
        assert(names[i] == entries[i].0);
        assert(names[j] == entries[j].0);
        lemma_precedes_irreflexive(names[i]);
        if i < j {
            assert(precedes(entries[i].0, entries[j].0));
        } else {
            assert(precedes(entries[j].0, entries[i].0));
        }
    }
}

} // verus!

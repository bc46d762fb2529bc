//! From a task's name to the task: where its source lies and what it is
//! granted.
//!
//! A task that the manifest declares is taken from there, whether or not its
//! source exists. A task that the manifest does not know is looked for at its
//! conventional place, `tasks/<name>.rs`, and is granted nothing.

use crate::cargo::{texts, Manifest, TaskDetail, TaskDetailView};
use crate::env::{build_sandbox_env, resolve_env, EnvVars, EnvVarsView, Environment};
use crate::error::{TaskError, TaskErrorView};
use crate::name_map::NameMap;
use crate::text::{catenate, has_suffix, strip_suffix, without_last};
use vstd::prelude::*;

verus! {

/// A task that is ready to be built and run.
#[derive(Clone, Debug, PartialEq, Eq)]
pub struct TaskDefinition {
    /// The name by which the task is called.
    pub name: String,
    /// Where the task's one source file lies, relative to the project's root
    /// unless absolute.
    pub path: String,
    /// The environment variables that the task is granted.
    pub env: EnvVars,
}

/// A [`TaskDefinition`] with its texts by their characters.
pub struct TaskDefinitionView {
    pub name: Seq<char>,
    pub path: Seq<char>,
    pub env: EnvVarsView,
}

impl View for TaskDefinition {
    type V = TaskDefinitionView;

    open spec fn view(&self) -> TaskDefinitionView {
        TaskDefinitionView { name: self.name@, path: self.path@, env: self.env@ }
    }
}

/// The directory in which tasks lie by convention.
pub open spec fn tasks_dir() -> Seq<char> {
    "tasks/"@
}

/// The ending of a task's source file.
pub open spec fn source_suffix() -> Seq<char> {
    ".rs"@
}

/// The name of the source file of the task `name`.
pub open spec fn source_file(name: Seq<char>) -> Seq<char> {
    name + source_suffix()
}

/// The conventional place of the task `name`: `tasks/<name>.rs`.
pub open spec fn default_path(name: Seq<char>) -> Seq<char> {
    tasks_dir() + source_file(name)
}

/// The task `name` as the manifest declares it: at the declared path, or at
/// the conventional place where none is declared, with the grant that its
/// permissions stand for in `env`.
pub open spec fn declared_task(
    name: Seq<char>,
    detail: TaskDetailView,
    env: Map<Seq<char>, Seq<char>>,
) -> TaskDefinitionView {
    TaskDefinitionView {
        name,
        path: match detail.path {
            Some(path) => path,
            None => default_path(name),
        },
        env: resolve_env(detail.inherit_env(), env),
    }
}

/// The task `name` as found at its conventional place: it is granted nothing.
pub open spec fn conventional_task(name: Seq<char>) -> TaskDefinitionView {
    TaskDefinitionView { name, path: default_path(name), env: EnvVarsView::Nothing }
}

/// What the name `name` resolves to. A declared task comes from the manifest.
/// Any other is the conventional task where a file lies at the conventional
/// place (`on_disk`), and nothing where none does.
pub open spec fn resolution(
    name: Seq<char>,
    tasks: Map<Seq<char>, TaskDetail>,
    on_disk: bool,
    env: Map<Seq<char>, Seq<char>>,
) -> Option<TaskDefinitionView> {
    if tasks.dom().contains(name) {
        Some(declared_task(name, tasks[name]@, env))
    } else if on_disk {
        Some(conventional_task(name))
    } else {
        None
    }
}

/// What the manifest declares of a task stands, whether or not a file lies at
/// the task's conventional place.
pub proof fn lemma_manifest_decides(
    name: Seq<char>,
    tasks: Map<Seq<char>, TaskDetail>,
    env: Map<Seq<char>, Seq<char>>,
)
    requires
        tasks.dom().contains(name),
    ensures
        resolution(name, tasks, true, env) == resolution(name, tasks, false, env),
        resolution(name, tasks, true, env) == Some(declared_task(name, tasks[name]@, env)),
{
}

/// A task that is found by convention alone is granted no environment
/// variable, whatever the environment holds.
pub proof fn lemma_convention_grants_nothing(
    name: Seq<char>,
    tasks: Map<Seq<char>, TaskDetail>,
    on_disk: bool,
    env: Map<Seq<char>, Seq<char>>,
)
    requires
        !tasks.dom().contains(name),
    ensures
        resolution(name, tasks, on_disk, env) matches Some(task) ==> task.env
            == EnvVarsView::Nothing && task.path == default_path(name),
        resolution(name, tasks, on_disk, env) is Some == on_disk,
{
}

/// A file called `<name>.rs` is among `files`.
pub open spec fn discovered(files: Seq<Seq<char>>, name: Seq<char>) -> bool {
    files.contains(source_file(name))
}

/// The name of the source file of the task `name`.
pub fn source_file_name(name: &str) -> (file: String)
    ensures
        file@ == source_file(name@),
{
    catenate(name, ".rs")
}

/// The conventional place of the task `name`.
pub fn default_task_path(name: &str) -> (path: String)
    ensures
        path@ == default_path(name@),
{
    let file = source_file_name(name);
    catenate("tasks/", file.as_str())
}

/// The task that a file of the tasks directory holds: the file's name without
/// its ending where it ends in `.rs`, nothing for any other file.
pub fn task_name_of(file: &str) -> (name: Option<String>)
    ensures
        name is Some == has_suffix(file@, source_suffix()),
        name is Some ==> source_file(name->0@) == file@,
        name is Some ==> name->0@ == without_last(file@, source_suffix().len()),
{
    let name = strip_suffix(file, ".rs");
    proof {
        if has_suffix(file@, source_suffix()) {
            assert(without_last(file@, source_suffix().len()) + source_suffix() =~= file@);
        }
    }
    name
}

/// The task `name` as the manifest declares it with `detail`.
fn declared(name: &str, detail: &TaskDetail, env: &Environment) -> (task: TaskDefinition)
    ensures
        task@ == declared_task(name@, detail@, env@),
{
    let path = match &detail.path {
        Some(path) => path.clone(),
        None => default_task_path(name),
    };
    TaskDefinition { name: name.to_owned(), path, env: build_sandbox_env(detail, env) }
}

/// Resolves one task by its name.
///
/// `on_disk` says whether a file lies at the task's conventional place; for a
/// task that the manifest declares it is not looked at.
pub fn resolve_task(name: &str, manifest: &Manifest, on_disk: bool, env: &Environment) -> (r:
    Result<TaskDefinition, TaskError>)
    ensures
        match resolution(name@, manifest.tasks@, on_disk, env@) {
            Some(task) => r is Ok && r->Ok_0@ == task,
            None => r is Err && r->Err_0@ == TaskErrorView::NotFound(name@),
        },
{
    match manifest.tasks.get(name) {
        Some(detail) => Ok(declared(name, detail, env)),
        None => {
            if on_disk {
                Ok(
                    TaskDefinition {
                        name: name.to_owned(),
                        path: default_task_path(name),
                        env: EnvVars::Nothing,
                    },
                )
            } else {
                Err(TaskError::NotFound(name.to_owned()))
            }
        },
    }
}

/// `tasks` holds every task of the project: under each name what
/// [`resolution`] gives for it when told whether `files` holds the task's
/// source file, and no entry where the name resolves to nothing.
pub open spec fn resolves_all(
    tasks: Map<Seq<char>, TaskDefinition>,
    declared: Map<Seq<char>, TaskDetail>,
    files: Seq<Seq<char>>,
    env: Map<Seq<char>, Seq<char>>,
) -> bool {
    forall|name: Seq<char>|
        #![trigger discovered(files, name)]
        #![trigger tasks.dom().contains(name)]
        match resolution(name, declared, discovered(files, name), env) {
            Some(task) => tasks.dom().contains(name) && tasks[name]@ == task,
            None => !tasks.dom().contains(name),
        }
}

/// Resolves every task of a project: those that the manifest declares, and
/// those that lie in the tasks directory, whose files `files` names. Where both
/// know a name, the manifest decides.
///
/// The outcome holds a name exactly where [`resolve_task`] finds a task for it,
/// and holds that task.
pub fn resolve_tasks(manifest: &Manifest, files: &Vec<String>, env: &Environment) -> (tasks:
    NameMap<TaskDefinition>)
    ensures
        resolves_all(tasks@, manifest.tasks@, texts(files@), env@),
{
    let mut tasks: NameMap<TaskDefinition> = NameMap::new();
    let ghost declared_tasks = manifest.tasks@;
    let n: usize = manifest.tasks.len();
    let mut i: usize = 0;
    while i < n
        invariant
            n == manifest.tasks.entries().len(),
            declared_tasks == manifest.tasks@,
            i <= n,
            forall|name: Seq<char>|
                tasks@.dom().contains(name) == (exists|j: int|
                    0 <= j < i && #[trigger] manifest.tasks.entries()[j].0 == name),
            forall|name: Seq<char>|
                #![trigger tasks@[name]]
                tasks@.dom().contains(name) ==> declared_tasks.dom().contains(name) && tasks@[name]@
                    == declared_task(name, declared_tasks[name]@, env@),
        decreases n - i,
    {
        let name = manifest.tasks.name_at(i);
        let detail = manifest.tasks.value_at(i);
        let task = declared(name.as_str(), detail, env);
        let ghost before = tasks@;
        tasks.insert(name.clone(), task);
        proof {
            let es = manifest.tasks.entries();
            assert forall|other: Seq<char>| tasks@.dom().contains(other) == (exists|j: int|
                0 <= j < i + 1 && #[trigger] es[j].0 == other) by {
                if before.dom().contains(other) {
                    let j = choose|j: int| 0 <= j < i && #[trigger] es[j].0 == other;
                    assert(0 <= j < i + 1 && es[j].0 == other);
                }
                if other == name@ {
                    assert(es[i as int].0 == other);
                }
                if exists|j: int| 0 <= j < i + 1 && #[trigger] es[j].0 == other {
                    let j = choose|j: int| 0 <= j < i + 1 && #[trigger] es[j].0 == other;
                    if j < i {
                        assert(before.dom().contains(other));
                    }
                }
            }
        }
        i += 1;
    }
    let ghost all = texts(files@);
    proof {
        let es = manifest.tasks.entries();
        let now = tasks@;
        let none = all.take(0);
        assert forall|name: Seq<char>|
            #![trigger discovered(none, name)]
            #![trigger now.dom().contains(name)]
            match resolution(name, declared_tasks, discovered(none, name), env@) {
                Some(task) => now.dom().contains(name) && now[name]@ == task,
                None => !now.dom().contains(name),
            } by {
            if declared_tasks.dom().contains(name) {
                let j = choose|j: int| crate::name_map::holds_at(es, j, name);
                assert(0 <= j < n && es[j].0 == name);
            }
            if now.dom().contains(name) {
                let j = choose|j: int| 0 <= j < n && #[trigger] es[j].0 == name;
                assert(crate::name_map::holds_at(es, j, name));
            }
        }
    }
    let m: usize = files.len();
    let mut k: usize = 0;
    while k < m
        invariant
            m == files.len(),
            all == texts(files@),
            declared_tasks == manifest.tasks@,
            k <= m,
            resolves_all(tasks@, declared_tasks, all.take(k as int), env@),
        decreases m - k,
    {
        let file = &files[k];
        let ghost before = tasks@;
        let ghost seen = all.take(k as int);
        assert(all.take(k + 1) =~= seen.push(file@));
        match task_name_of(file.as_str()) {
            Some(name) => {
                let ghost stem = name@;
                if !tasks.contains_key(name.as_str()) {
                    let path = default_task_path(name.as_str());
                    let task = TaskDefinition {
                        name: name.clone(),
                        path,
                        env: EnvVars::Nothing,
                    };
                    tasks.insert(name, task);
                    proof {
                        lemma_resolves_all_found(before, declared_tasks, seen, env@, stem, task);
                    }
                } else {
                    proof {
                        lemma_resolves_all_known(before, declared_tasks, seen, env@, stem);
                    }
                }
            },
            None => {
                proof {
                    lemma_resolves_all_other(before, declared_tasks, seen, env@, file@);
                }
            },
        }
        k += 1;
    }
    assert(all.take(m as int) =~= all);
    tasks
}

/// A file that holds no task changes nothing.
proof fn lemma_resolves_all_other(
    tasks: Map<Seq<char>, TaskDefinition>,
    declared: Map<Seq<char>, TaskDetail>,
    files: Seq<Seq<char>>,
    env: Map<Seq<char>, Seq<char>>,
    file: Seq<char>,
)
    requires
        resolves_all(tasks, declared, files, env),
        !has_suffix(file, source_suffix()),
    ensures
        resolves_all(tasks, declared, files.push(file), env),
{
    let more = files.push(file);
    assert forall|name: Seq<char>|
        #![trigger discovered(more, name)]
        #![trigger tasks.dom().contains(name)]
        match resolution(name, declared, discovered(more, name), env) {
            Some(task) => tasks.dom().contains(name) && tasks[name]@ == task,
            None => !tasks.dom().contains(name),
        } by {
        lemma_discovered_push(files, file, name);
        lemma_source_file_has_suffix(name);
        assert(discovered(more, name) == discovered(files, name));
    }
}

/// The source file of a task that is known already changes nothing.
proof fn lemma_resolves_all_known(
    tasks: Map<Seq<char>, TaskDefinition>,
    declared: Map<Seq<char>, TaskDetail>,
    files: Seq<Seq<char>>,
    env: Map<Seq<char>, Seq<char>>,
    stem: Seq<char>,
)
    requires
        resolves_all(tasks, declared, files, env),
        tasks.dom().contains(stem),
    ensures
        resolves_all(tasks, declared, files.push(source_file(stem)), env),
{
    let file = source_file(stem);
    let more = files.push(file);
    assert forall|name: Seq<char>|
        #![trigger discovered(more, name)]
        #![trigger tasks.dom().contains(name)]
        match resolution(name, declared, discovered(more, name), env) {
            Some(task) => tasks.dom().contains(name) && tasks[name]@ == task,
            None => !tasks.dom().contains(name),
        } by {
        lemma_discovered_push(files, file, name);
        lemma_source_file_has_suffix(name);
        lemma_source_file_has_suffix(stem);
        let was = discovered(files, name);
        if name != stem {
            assert(discovered(more, name) == was);
        }
    }
}

/// The source file of a task that is not known yet adds the conventional task.
proof fn lemma_resolves_all_found(
    tasks: Map<Seq<char>, TaskDefinition>,
    declared: Map<Seq<char>, TaskDetail>,
    files: Seq<Seq<char>>,
    env: Map<Seq<char>, Seq<char>>,
    stem: Seq<char>,
    task: TaskDefinition,
)
    requires
        resolves_all(tasks, declared, files, env),
        !tasks.dom().contains(stem),
        task@ == conventional_task(stem),
    ensures
        resolves_all(tasks.insert(stem, task), declared, files.push(source_file(stem)), env),
{
    let file = source_file(stem);
    let more = files.push(file);
    let after = tasks.insert(stem, task);
    assert forall|name: Seq<char>|
        #![trigger discovered(more, name)]
        #![trigger after.dom().contains(name)]
        match resolution(name, declared, discovered(more, name), env) {
            Some(task) => after.dom().contains(name) && after[name]@ == task,
            None => !after.dom().contains(name),
        } by {
        lemma_discovered_push(files, file, name);
        lemma_source_file_has_suffix(name);
        lemma_source_file_has_suffix(stem);
        let was = discovered(files, name);
        if name != stem {
            assert(discovered(more, name) == was);
        }
    }
}

/// A further file adds its own task to those discovered, and no other.
proof fn lemma_discovered_push(files: Seq<Seq<char>>, file: Seq<char>, name: Seq<char>)
    ensures
        discovered(files.push(file), name) == (discovered(files, name) || file == source_file(
            name,
        )),
{
    let more = files.push(file);
    let wanted = source_file(name);
    if discovered(files, name) {
        let i = choose|i: int| 0 <= i < files.len() && files[i] == wanted;
        assert(more[i] == wanted);
    }
    if file == wanted {
        assert(more[files.len() as int] == wanted);
    }
    if discovered(more, name) {
        let i = choose|i: int| 0 <= i < more.len() && more[i] == wanted;
        if i < files.len() {
            assert(files[i] == wanted);
        }
    }
}

/// The source file of a task ends in `.rs`, and the task's name is what stands
/// before.
proof fn lemma_source_file_has_suffix(name: Seq<char>)
    ensures
        has_suffix(source_file(name), source_suffix()),
        without_last(source_file(name), source_suffix().len()) == name,
{
    let file = source_file(name);
    assert(file.subrange(file.len() - source_suffix().len(), file.len() as int)
        =~= source_suffix());
    assert(without_last(file, source_suffix().len()) =~= name);
}

} // verus!
